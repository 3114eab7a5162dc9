//! The QUIC service: books and engine together.

use crate::quic::command::Command;
use crate::quic::config::QuicConfig;
use crate::quic::engine::{self, Datagram, Engine, Port};
#[allow(unused_imports)]
use crate::quic::engine::{knows, Asked, Met, Signal};
use crate::quic::event::QuicConnectionId;
use crate::quic::outcome::ProtoInfo;
#[allow(unused_imports)]
use crate::quic::outcome::ProtoInfoView;
use crate::quic::output::{DriveOutput, Pending};
use crate::quic::serve::{flush_writes, poll_application};
use crate::quic::state::{Bound, Consult, Listener, Outcome, State};
#[allow(unused_imports)]
use quinn_proto::{ConnectionEvent, EndpointEvent};
use std::collections::VecDeque;
use std::time::Instant;
#[allow(unused_imports)]
use crate::{
    places::{lemma_first_place, lemma_first_place_is},
    quic::{
        command::VARINT_BOUND,
        link::{receives, sends, LinkView},
        output::{OutputView, PacketView},
        serve::{
            all_turned, asks_all, exhausted, flush_all_asked, flushed_all, happen_all, polled,
            turns_over, FlushTurn, Happening,
        },
        state::{answers, performable, EndpointView, OutcomeView, StateView},
    },
};
use vstd::prelude::*;

verus! {

/// The service. Endpoints and connections of the engine stand in the same
/// places as those of the books.
pub struct QuicService {
    pub state: State,
    pub endpoints: Vec<Port>,
    pub engines: Vec<Engine>,
    pub config: QuicConfig,
    /// Where times are counted from.
    pub base: Instant,
}

/// One connection's turn: what the engine reported, the turns of its streams
/// at sending, the datagrams it sends, and all that the engine was asked for.
#[verifier::ext_equal]
pub struct Work {
    pub happenings: Seq<Happening>,
    pub turns: Seq<FlushTurn>,
    pub packets: Seq<PacketView>,
    pub asked: Seq<Asked>,
}

/// What a connection says of itself when its socket was driven: that nothing
/// is left of it, or when it wants to be woken.
#[verifier::ext_equal]
pub struct Report {
    pub drained: bool,
    pub at: Option<u64>,
}

impl Report {
    /// What the engine is asked for.
    pub open spec fn asked(self) -> Seq<Asked> {
        if self.drained {
            seq![Asked::Drained { drained: true }]
        } else {
            seq![Asked::Drained { drained: false }, Asked::Timeout { at: self.at }]
        }
    }
}

/// What the engine is asked for while datagrams are taken from it.
pub open spec fn transmits_asked(now: u64, packets: Seq<PacketView>) -> Seq<Asked> {
    packets.map_values(
        |packet: PacketView|
            Asked::Transmit { now, sent: Some((packet.destination, packet.data)) },
    )
}

/// A turn does all there is to do: the engine is asked for what it has to
/// report, what each report leads to is seen to, each stream that has
/// something to send has its turn, and the engine is asked for datagrams as
/// long as it has some.
pub open spec fn worked(
    work: Work,
    link: LinkView,
    output: OutputView,
    config: QuicConfig,
    socket: u32,
    now: u64,
) -> bool {
    let low_water = config.write_low_water as int;
    let (l, o) = happen_all(link, output, work.happenings, low_water);
    &&& forall|i: int|
        0 <= i < work.packets.len() ==> (#[trigger] work.packets[i]).socket == socket
    &&& all_turned(l.writes, work.turns)
    &&& turns_over(l, o, work.turns, low_water)
    &&& exists|
        poll: Seq<Asked>,
        signals: Seq<Signal>,
        pieces: Seq<Seq<Asked>>,
        sends: Seq<Asked>,
    |
        {
            &&& asks_all(signals, pieces, link, output, work.happenings, config)
            &&& #[trigger] exhausted(
                poll,
                polled(signals, pieces),
                Asked::Poll { signal: None },
                work.happenings.len(),
            )
            &&& #[trigger] exhausted(
                sends,
                transmits_asked(now, work.packets),
                Asked::Transmit { now, sent: None },
                work.packets.len(),
            )
            &&& work.asked == poll + flush_all_asked(l, o, work.turns, low_water) + sends
        }
}

/// Each of several turns does all there is to do.
pub open spec fn worked_all(
    state: StateView,
    output: OutputView,
    handles: Seq<Bound>,
    work: Seq<Work>,
    config: QuicConfig,
    socket: u32,
    now: u64,
) -> bool
    decreases handles.len(),
{
    if handles.len() == 0 {
        work.len() == 0
    } else {
        let (s, o) = served_all(
            state,
            output,
            handles.drop_last(),
            work.drop_last(),
            config.write_low_water as int,
        );
        let id = handles.last().id;
        &&& work.len() == handles.len()
        &&& worked_all(state, output, handles.drop_last(), work.drop_last(), config, socket, now)
        &&& s.has_link(id) ==> worked(work.last(), s.link(id), o, config, socket, now)
    }
}

/// The connections of which nothing is left, and when the first of the others
/// wants to be woken, by what each says of itself.
pub open spec fn surveyed(state: StateView, handles: Seq<Bound>, reports: Seq<Report>) -> (
    Seq<Bound>,
    Option<u64>,
)
    decreases handles.len(),
{
    if handles.len() == 0 {
        (Seq::empty(), None)
    } else {
        let (drained, deadline) = surveyed(state, handles.drop_last(), reports.drop_last());
        if !state.has_link(handles.last().id) {
            (drained, deadline)
        } else if reports.last().drained {
            (drained.push(handles.last()), deadline)
        } else {
            (drained, earliest(deadline, reports.last().at))
        }
    }
}

/// What the engine is asked for at one place while several connections have
/// their turns.
pub open spec fn asked_at(
    state: StateView,
    handles: Seq<Bound>,
    asked: Seq<Seq<Asked>>,
    place: int,
) -> Seq<Asked>
    decreases handles.len(),
{
    if handles.len() == 0 {
        Seq::empty()
    } else {
        let earlier = asked_at(state, handles.drop_last(), asked.drop_last(), place);
        if state.link_place(handles.last().id) == place {
            earlier + asked.last()
        } else {
            earlier
        }
    }
}

/// What the engine is asked for in each of several turns.
pub open spec fn work_asked(work: Seq<Work>) -> Seq<Seq<Asked>> {
    work.map_values(|work: Work| work.asked)
}

/// What the engine is asked for in each of several surveys.
pub open spec fn reports_asked(reports: Seq<Report>) -> Seq<Seq<Asked>> {
    reports.map_values(|report: Report| report.asked())
}

/// One round of what connections and their endpoint have for each other: what
/// each connection reports, what it is asked for that, and what the endpoint
/// answers to each report.
#[verifier::ext_equal]
pub struct Round {
    pub events: Seq<Seq<EndpointEvent>>,
    pub asked: Seq<Seq<Asked>>,
    pub answers: Seq<Option<ConnectionEvent>>,
}

/// A report that is passed on: the number the endpoint knows the connection
/// by, the connection's place, and what it has for the endpoint.
pub open spec fn noted(entry: (usize, usize, EndpointEvent)) -> (usize, int, EndpointEvent) {
    (entry.0, entry.1 as int, entry.2)
}

/// Reports that are passed on.
pub open spec fn noted_all(entries: Seq<(usize, usize, EndpointEvent)>) -> Seq<
    (usize, int, EndpointEvent),
> {
    entries.map_values(|entry: (usize, usize, EndpointEvent)| noted(entry))
}

/// What one connection reports, to be passed on.
pub open spec fn reports_of(handle: usize, place: int, events: Seq<EndpointEvent>) -> Seq<
    (usize, int, EndpointEvent),
> {
    events.map_values(|event: EndpointEvent| (handle, place, event))
}

/// All that the connections report in a round, in order. One that is not
/// there reports nothing.
pub open spec fn all_reports(
    state: StateView,
    handles: Seq<Bound>,
    events: Seq<Seq<EndpointEvent>>,
) -> Seq<(usize, int, EndpointEvent)>
    decreases handles.len(),
{
    if handles.len() == 0 {
        Seq::empty()
    } else {
        let earlier = all_reports(state, handles.drop_last(), events.drop_last());
        let bound = handles.last();
        if state.has_link(bound.id) {
            earlier + reports_of(bound.handle, state.link_place(bound.id), events.last())
        } else {
            earlier
        }
    }
}

/// What a connection is asked for while it reports.
pub open spec fn reporting(events: Seq<EndpointEvent>) -> Seq<Asked> {
    events.map_values(|event: EndpointEvent| Asked::Report { event: Some(event) })
}

/// What an endpoint has met when reports were passed to it: each of a
/// connection that it knows, under that connection's number.
pub open spec fn heard(
    met: Seq<Met>,
    reports: Seq<(usize, int, EndpointEvent)>,
    answers: Seq<Option<ConnectionEvent>>,
) -> Seq<Met>
    decreases reports.len(),
{
    if reports.len() == 0 {
        met
    } else {
        let earlier = heard(met, reports.drop_last(), answers.drop_last());
        let (handle, place, event) = reports.last();
        if knows(earlier, handle) {
            earlier.push(Met::Event { handle, event, answer: answers.last() })
        } else {
            earlier
        }
    }
}

/// What the connection at a place is told then: the endpoint's answers to its
/// own reports.
pub open spec fn told_at(
    met: Seq<Met>,
    reports: Seq<(usize, int, EndpointEvent)>,
    answers: Seq<Option<ConnectionEvent>>,
    place: int,
) -> Seq<Asked>
    decreases reports.len(),
{
    if reports.len() == 0 {
        Seq::empty()
    } else {
        let earlier = told_at(met, reports.drop_last(), answers.drop_last(), place);
        let (handle, own, event) = reports.last();
        let known = knows(heard(met, reports.drop_last(), answers.drop_last()), handle);
        match answers.last() {
            Some(answer) if own == place && known => earlier.push(Asked::Told { event: answer }),
            _ => earlier,
        }
    }
}

/// In a round each connection reports all that it has.
pub open spec fn round_whole(state: StateView, handles: Seq<Bound>, round: Round) -> bool {
    &&& round.events.len() == handles.len()
    &&& round.asked.len() == handles.len()
    &&& round.answers.len() == all_reports(state, handles, round.events).len()
    &&& forall|i: int|
        0 <= i < handles.len() && state.has_link((#[trigger] handles[i]).id) ==> exhausted(
            round.asked[i],
            reporting(round.events[i]),
            Asked::Report { event: None },
            round.events[i].len(),
        )
}

/// What an endpoint has met after several rounds.
pub open spec fn met_over(
    state: StateView,
    handles: Seq<Bound>,
    met: Seq<Met>,
    rounds: Seq<Round>,
) -> Seq<Met>
    decreases rounds.len(),
{
    if rounds.len() == 0 {
        met
    } else {
        let round = rounds.last();
        heard(
            met_over(state, handles, met, rounds.drop_last()),
            all_reports(state, handles, round.events),
            round.answers,
        )
    }
}

/// What the connection at a place is asked for in several rounds.
pub open spec fn asked_over(
    state: StateView,
    handles: Seq<Bound>,
    met: Seq<Met>,
    rounds: Seq<Round>,
    place: int,
) -> Seq<Asked>
    decreases rounds.len(),
{
    if rounds.len() == 0 {
        Seq::empty()
    } else {
        let round = rounds.last();
        asked_over(state, handles, met, rounds.drop_last(), place) + asked_at(
            state,
            handles,
            round.asked,
            place,
        ) + told_at(
            met_over(state, handles, met, rounds.drop_last()),
            all_reports(state, handles, round.events),
            round.answers,
            place,
        )
    }
}

/// Connections and their endpoint hear what they have for each other, round by
/// round, until nothing is left or for as many rounds as can be counted.
pub open spec fn rounds_over(
    state: StateView,
    handles: Seq<Bound>,
    before: Seq<Engine>,
    after: Seq<Engine>,
    met: Seq<Met>,
    left: Seq<Met>,
    rounds: Seq<Round>,
) -> bool {
    &&& rounds.len() > 0
    &&& all_reports(state, handles, rounds.last().events).len() == 0 || rounds.len() == u64::MAX
    &&& forall|k: int| 0 <= k < rounds.len() ==> round_whole(state, handles, #[trigger] rounds[k])
    &&& left == met_over(state, handles, met, rounds)
    &&& before.len() == after.len()
    &&& forall|p: int|
        0 <= p < after.len() ==> (#[trigger] after[p]).asked() == before[p].asked() + asked_over(
            state,
            handles,
            met,
            rounds,
            p,
        )
}

/// Connections and their endpoint hear what they have for each other.
pub open spec fn exchanged(
    state: StateView,
    handles: Seq<Bound>,
    before: Seq<Engine>,
    after: Seq<Engine>,
    met: Seq<Met>,
    left: Seq<Met>,
) -> bool {
    exists|rounds: Seq<Round>| #[trigger]
        rounds_over(state, handles, before, after, met, left, rounds)
}

/// An endpoint heard nothing but what its connections had for it.
pub open spec fn only_heard(before: Port, after: Port) -> bool {
    &&& after.server() == before.server()
    &&& before.met().len() <= after.met().len()
    &&& after.met().take(before.met().len() as int) == before.met()
    &&& forall|i: int|
        before.met().len() <= i < after.met().len() ==> (#[trigger] after.met()[i]) is Event
}

/// What driving a socket asks of the endpoints: the one of the socket hears what its connections
/// have for it, and goes if it is of no use any more. The others are asked nothing.
pub open spec fn ports_driven(
    before: StateView,
    ports: Seq<Port>,
    socket: u32,
    after: StateView,
    left: Seq<Port>,
) -> bool {
    &&& left.len() == after.endpoints.len()
    &&& forall|i: int|
        0 <= i < left.len() ==> port_left(
            before,
            ports,
            socket,
            after.endpoints[i].socket,
            #[trigger] left[i],
        )
}

/// What driving a socket leaves of an endpoint, by the endpoint's own socket.
pub open spec fn port_left(
    before: StateView,
    ports: Seq<Port>,
    socket: u32,
    own: u32,
    left: Port,
) -> bool {
    let place = before.endpoint_place(own);
    &&& 0 <= place < ports.len()
    &&& only_heard(ports[place], left)
    &&& own != socket ==> left == ports[place]
}

/// The endpoints of the engine with one more, or with another one for the same socket.
pub open spec fn with_port(state: StateView, ports: Seq<Port>, socket: u32, port: Port) -> Seq<
    Port,
> {
    let place = state.endpoint_place(socket);
    if place < state.endpoints.len() {
        ports.update(place, port)
    } else {
        ports.push(port)
    }
}

/// The endpoints of the engine without the one that was dropped.
pub open spec fn ports_kept(ports: Seq<Port>, dropped: Option<int>) -> Seq<Port> {
    match dropped {
        Some(place) => ports.remove(place),
        None => ports,
    }
}

/// All endpoints but one are as they were.
pub open spec fn others_kept(before: Seq<Port>, after: Seq<Port>, place: int) -> bool {
    &&& after.len() == before.len()
    &&& forall|i: int| 0 <= i < after.len() && i != place ==> (#[trigger] after[i]) == before[i]
}

/// How many answers are yes.
pub open spec fn counted(answers: Seq<bool>) -> int
    decreases answers.len(),
{
    if answers.len() == 0 {
        0
    } else {
        counted(answers.drop_last()) + if answers.last() {
            1int
        } else {
            0
        }
    }
}

/// Each connection was asked whether it is not up yet, and so many are not.
pub open spec fn shaken(before: Seq<Engine>, after: Seq<Engine>, count: int) -> bool {
    exists|answers: Seq<bool>|
        {
            &&& #[trigger] counted(answers) == count
            &&& answers.len() == before.len()
            &&& after.len() == before.len()
            &&& forall|i: int|
                0 <= i < after.len() ==> (#[trigger] after[i]).server() == before[i].server()
                    && after[i].asked() == before[i].asked().push(
                    Asked::Handshaking { handshaking: answers[i] },
                )
        }
}

/// One connection was asked for one thing, and the others for nothing.
pub open spec fn asked_one(
    before: Seq<Engine>,
    after: Seq<Engine>,
    place: int,
    asked: Seq<Asked>,
) -> bool {
    &&& after.len() == before.len()
    &&& forall|i: int|
        0 <= i < after.len() ==> (#[trigger] after[i]).asked() == (if i == place {
            before[i].asked() + asked
        } else {
            before[i].asked()
        })
}

/// What driving a socket asks of the engine: connections and endpoint hear
/// what they have for each other, each connection has its turn, and each says
/// whether anything is left of it.
pub open spec fn drive_asks(
    before: StateView,
    engines: Seq<Engine>,
    ports: Seq<Port>,
    socket: u32,
    now: u64,
    config: QuicConfig,
    work: Seq<Work>,
    drained: Seq<Bound>,
    deadline: Option<u64>,
    after: StateView,
    left: Seq<Engine>,
    left_ports: Seq<Port>,
) -> bool {
    let endpoint = before.endpoint_place(socket);
    if endpoint >= before.endpoints.len() {
        left == engines && left_ports == ports
    } else {
        let handles = before.endpoints[endpoint].connections;
        &&& worked_all(before, OutputView::empty(), handles, work, config, socket, now)
        &&& exists|met: Seq<Engine>, heard: Seq<Met>, reports: Seq<Report>|
            {
                &&& #[trigger] exchanged(
                    before,
                    handles,
                    engines,
                    met,
                    ports[endpoint].met(),
                    heard,
                )
                &&& forall|i: int|
                    0 <= i < left_ports.len() && after.endpoints[i].socket == socket ==> (
                    #[trigger] left_ports[i]).met() == heard
                &&& (drained, deadline) == #[trigger] surveyed(before, handles, reports)
                &&& records_left(before, handles, met, work, reports, after, left)
            }
    }
}

/// The records of the connections that are left hold what their turns and
/// their surveys asked for.
pub open spec fn records_left(
    before: StateView,
    handles: Seq<Bound>,
    met: Seq<Engine>,
    work: Seq<Work>,
    reports: Seq<Report>,
    after: StateView,
    left: Seq<Engine>,
) -> bool {
    &&& reports.len() == handles.len()
    &&& left.len() == after.links.len()
    &&& forall|i: int|
        0 <= i < left.len() ==> {
            let place = before.link_place(after.links[i].id);
            (#[trigger] left[i]).asked() == met[place].asked() + asked_at(
                before,
                handles,
                work_asked(work),
                place,
            ) + asked_at(before, handles, reports_asked(reports), place)
        }
}

/// What one connection's turn does.
pub open spec fn served(link: LinkView, output: OutputView, work: Work, low_water: int) -> (
    LinkView,
    OutputView,
) {
    let (l, o) = happen_all(link, output, work.happenings, low_water);
    let (l, o) = flushed_all(l, o, work.turns, low_water);
    (l, OutputView { packets: o.packets + work.packets, ..o })
}

/// What the turns of several connections do, one after the other. One that is
/// not there has none.
pub open spec fn served_all(
    state: StateView,
    output: OutputView,
    handles: Seq<Bound>,
    work: Seq<Work>,
    low_water: int,
) -> (StateView, OutputView)
    decreases handles.len(),
{
    if handles.len() == 0 {
        (state, output)
    } else {
        let (s, o) = served_all(state, output, handles.drop_last(), work.drop_last(), low_water);
        let id = handles.last().id;
        if s.has_link(id) {
            let (l, o) = served(s.link(id), o, work.last(), low_water);
            (s.with_link(id, l), o)
        } else {
            (s, o)
        }
    }
}

/// What driving a socket leaves: each of its connections has its turn, those
/// of which nothing is left are taken out, and the endpoint's timer is set.
pub open spec fn driven(
    before: StateView,
    socket: u32,
    now: u64,
    low_water: int,
    work: Seq<Work>,
    drained: Seq<Bound>,
    deadline: Option<u64>,
) -> (StateView, OutputView) {
    let place = before.endpoint_place(socket);
    if place >= before.endpoints.len() {
        (before, OutputView::empty())
    } else {
        let (s, o) = served_all(
            before,
            OutputView::empty(),
            before.endpoints[place].connections,
            work,
            low_water,
        );
        s.without_all(socket, drained).rested(socket, deadline, now, o)
    }
}

/// What a request asks of the engine, with what it answered.
#[verifier::ext_equal]
pub enum Question {
    Nothing,
    /// Of the connection at a place.
    One(int, Asked),
    /// Of each connection, in order.
    Each(Seq<Asked>),
}

/// What several connections are asked for when each tells of itself.
pub open spec fn infos_asked(infos: Seq<ProtoInfoView>) -> Seq<Asked> {
    infos.map_values(|info: ProtoInfoView| Asked::Info { info })
}

/// What a request asks of the engine: the place of the connection, and what it
/// is asked for with what it answered.
pub open spec fn question(
    consult: Consult,
    command: Command,
    now: u64,
    outcome: OutcomeView,
) -> Question {
    match (consult, outcome) {
        (Consult::Open { place, bidirectional }, OutcomeView::Opened(stream)) => Question::One(place as int, Asked::Open { bidirectional, stream }),
        (Consult::Write { place, stream }, OutcomeView::Write(outcome)) => match command {
            Command::Send { data, .. } => Question::One(place as int, Asked::Write { stream, data: data@, outcome }),
            _ => Question::Nothing,
        },
        (Consult::Finish { place, stream }, OutcomeView::Call(outcome)) => Question::One(place as int, Asked::Finish { stream, outcome }),
        (Consult::Reset { place, stream, code }, OutcomeView::Call(outcome)) => Question::One(place as int, Asked::Reset { stream, code, outcome }),
        (Consult::Stop { place, stream, code }, OutcomeView::Call(outcome)) => Question::One(place as int, Asked::Stop { stream, code, outcome }),
        (Consult::Datagram { place }, OutcomeView::Call(outcome)) => match command {
            Command::SendDatagram { data, .. } => Question::One(place as int, Asked::Send { data: data@, outcome }),
            _ => Question::Nothing,
        },
        (Consult::Close { place, code }, _) => {
            let reason = match command {
                Command::Close { reason, .. } => reason@,
                _ => Seq::empty(),
            };
            Question::One(place as int, Asked::Close { now, code, reason })
        },
        (Consult::Info { place }, OutcomeView::Info(info)) => Question::One(
            place as int,
            Asked::Info { info },
        ),
        (Consult::Infos, OutcomeView::Infos(infos)) => Question::Each(infos_asked(infos)),
        _ => Question::Nothing,
    }
}

/// What connections of the engine were asked for.
pub open spec fn records_of(engines: Seq<Engine>) -> Seq<Seq<Asked>> {
    engines.map_values(|engine: Engine| engine.asked())
}

/// The records of the connections, with what a request asked for.
pub open spec fn recorded(records: Seq<Seq<Asked>>, question: Question) -> Seq<Seq<Asked>> {
    match question {
        Question::Nothing => records,
        Question::One(place, asked) => records.update(place, records[place].push(asked)),
        Question::Each(asked) => Seq::new(records.len(), |i: int| records[i].push(asked[i])),
    }
}

/// The lists have the same length, each connection of the engine is on the
/// side that the books say, and each endpoint's numbers are right.
pub open spec fn paired(state: &State, endpoints: Seq<Port>, engines: Seq<Engine>) -> bool {
    &&& endpoints.len() == state.endpoints@.len()
    &&& engines.len() == state.links@.len()
    &&& forall|i: int|
        0 <= i < engines.len() ==> (#[trigger] engines[i]).server() == state.links@[i].listener.is_some()
    &&& forall|i: int| 0 <= i < endpoints.len() ==> (#[trigger] endpoints[i]).wf()
}

impl QuicService {
    /// Books and engine fit together.
    pub open spec fn wf(&self) -> bool {
        &&& self.state@.wf()
        &&& paired(&self.state, self.endpoints@, self.engines@)
    }

    /// What the connections of the engine were asked for so far.
    pub open spec fn records(&self) -> Seq<Seq<Asked>> {
        records_of(self.engines@)
    }

    /// A service without connections.
    pub fn new(config: QuicConfig) -> (service: QuicService)
        ensures
            service.wf(),
            service.state@ == StateView::empty(),
            service.config == config,
    {
        QuicService {
            state: State::default(),
            endpoints: Vec::new(),
            engines: Vec::new(),
            config,
            base: engine::time_base(),
        }
    }

    /// The time now, in nanoseconds. Nothing is stated of it.
    pub fn now(&self) -> u64 {
        engine::nanos_since(&self.base)
    }

    /// How many connections are not up yet.
    pub fn handshake_count(&mut self) -> (count: usize)
        ensures
            final(self).state == old(self).state,
            final(self).endpoints == old(self).endpoints,
            final(self).config == old(self).config,
            final(self).base == old(self).base,
            shaken(old(self).engines@, final(self).engines@, count as int),
            old(self).wf() ==> final(self).wf(),
    {
        let mut count: usize = 0;
        let ghost mut answers: Seq<bool> = Seq::empty();
        let mut i: usize = 0;
        while i < self.engines.len()
            invariant
                count <= i <= self.engines@.len(),
                self.state == old(self).state,
                self.endpoints == old(self).endpoints,
                self.config == old(self).config,
                self.base == old(self).base,
                self.engines@.len() == old(self).engines@.len(),
                answers.len() == i,
                count == counted(answers),
                forall|k: int|
                    0 <= k < i ==> (#[trigger] self.engines@[k]).server() == old(
                        self).engines@[k].server() && self.engines@[k].asked() == old(
                        self).engines@[k].asked().push(
                        Asked::Handshaking { handshaking: answers[k] },
                    ),
                forall|k: int|
                    i <= k < self.engines@.len() ==> (#[trigger] self.engines@[k]) == old(
                        self).engines@[k],
            decreases self.engines@.len() - i,
        {
            let handshaking = engine::is_handshaking(&mut self.engines[i]);
            proof {
                let earlier = answers;
                answers = answers.push(handshaking);
                assert(answers.drop_last() =~= earlier);
            }
            if handshaking {
                count = count + 1;
            }
            i = i + 1;
        }
        count
    }

    /// Asks the engine what a request needs.
    fn ask(&mut self, consult: Consult, command: &Command, now: u64) -> (outcome: Outcome)
        requires
            old(self).wf(),
            performable(*command),
            exists|pending: Pending| #[trigger]
                old(self).state@.consult(old(self).config, pending, *command) == consult && old(
                    self).state@.usable(old(self).config, pending, *command),
        ensures
            final(self).wf(),
            final(self).state == old(self).state,
            final(self).config == old(self).config,
            final(self).base == old(self).base,
            final(self).endpoints == old(self).endpoints,
            answers(consult, *command, final(self).state@.links.len() as int, outcome@),
            final(self).records() == recorded(
                old(self).records(),
                question(consult, *command, now, outcome@),
            ),
    {
        let ghost records = self.records();
        proof {
            let pending = choose|pending: Pending| #[trigger]
                old(self).state@.consult(old(self).config, pending, *command) == consult && old(
                    self).state@.usable(old(self).config, pending, *command);
            self.lemma_consult_places(pending, *command);
        }
        let outcome = match consult {
            Consult::Nothing => Outcome::Nothing,
            Consult::Open { place, bidirectional } => Outcome::Opened(
                engine::open(&mut self.engines[place], bidirectional),
            ),
            Consult::Write { place, stream } => match command {
                Command::Send { data, .. } => {
                    assert(data@.skip(0) =~= data@);
                    Outcome::Write(engine::write(&mut self.engines[place], stream, data, 0))
                },
                _ => {
                    assert(false);
                    Outcome::Nothing
                },
            },
            Consult::Finish { place, stream } => Outcome::Call(
                engine::finish(&mut self.engines[place], stream),
            ),
            Consult::Reset { place, stream, code } => Outcome::Call(
                engine::reset(&mut self.engines[place], stream, code),
            ),
            Consult::Stop { place, stream, code } => Outcome::Call(
                engine::stop(&mut self.engines[place], stream, code),
            ),
            Consult::Datagram { place } => match command {
                Command::SendDatagram { data, .. } => Outcome::Call(
                    engine::send_datagram(&mut self.engines[place], data),
                ),
                _ => {
                    assert(false);
                    Outcome::Nothing
                },
            },
            Consult::Close { place, code } => {
                match command {
                    Command::Close { reason, .. } => engine::close(
                        &mut self.engines[place],
                        &self.base,
                        now,
                        code,
                        reason.as_slice(),
                    ),
                    _ => {
                        let unsaid: Vec<u8> = Vec::new();
                        engine::close(
                            &mut self.engines[place],
                            &self.base,
                            now,
                            code,
                            unsaid.as_slice(),
                        )
                    },
                }
                Outcome::Nothing
            },
            Consult::Info { place } => Outcome::Info(engine::info(&mut self.engines[place])),
            Consult::Infos => {
                let mut infos: Vec<ProtoInfo> = Vec::new();
                while infos.len() < self.engines.len()
                    invariant
                        infos@.len() <= self.engines@.len(),
                        self.wf(),
                        self.state == old(self).state,
                        self.config == old(self).config,
                        self.base == old(self).base,
                        self.endpoints == old(self).endpoints,
                        self.engines@.len() == records.len(),
                        forall|k: int|
                            0 <= k < infos@.len() ==> (#[trigger] self.engines@[k]).asked()
                                == records[k].push(Asked::Info { info: infos@[k]@ }),
                        forall|k: int|
                            infos@.len() <= k < records.len() ==> (
                            #[trigger] self.engines@[k]).asked() == records[k],
                    decreases self.engines@.len() - infos@.len(),
                {
                    let place: usize = infos.len();
                    infos.push(engine::info(&mut self.engines[place]));
                }
                Outcome::Infos(infos)
            },
        };
        assert(self.records() =~= recorded(
            records,
            question(consult, *command, now, outcome@),
        ));
        outcome
    }

    /// What a request asks of the engine, it asks of a connection that is
    /// there, with numbers that the engine takes.
    proof fn lemma_consult_places(&self, pending: Pending, command: Command)
        requires
            self.wf(),
            performable(command),
            self.state@.usable(self.config, pending, command),
        ensures
            match self.state@.consult(self.config, pending, command) {
                Consult::Nothing => true,
                Consult::Open { place, .. } => place < self.engines@.len(),
                Consult::Write { place, stream } => command is Send && place < self.engines@.len()
                    && stream < VARINT_BOUND && sends(self.engines@[place as int].server(), stream),
                Consult::Finish { place, stream } => place < self.engines@.len() && stream
                    < VARINT_BOUND && sends(self.engines@[place as int].server(), stream),
                Consult::Reset { place, stream, code } => place < self.engines@.len() && stream
                    < VARINT_BOUND && code < VARINT_BOUND && sends(
                    self.engines@[place as int].server(),
                    stream,
                ),
                Consult::Stop { place, stream, code } => place < self.engines@.len() && stream
                    < VARINT_BOUND && code < VARINT_BOUND && receives(
                    self.engines@[place as int].server(),
                    stream,
                ),
                Consult::Datagram { place } => command is SendDatagram && place
                    < self.engines@.len(),
                Consult::Close { place, code } => place < self.engines@.len() && code
                    < VARINT_BOUND,
                Consult::Info { place } => place < self.engines@.len(),
                Consult::Infos => true,
            },
    {
        assert forall|id: QuicConnectionId| #[trigger] self.state@.has_link(id) implies 0
            <= self.state@.link_place(id) < self.state.links.len() && self.state@.link(id)
            == self.state.links@[self.state@.link_place(id)]@ by {
            lemma_first_place(self.state@.links, |link: LinkView| link.id == id);
        }
    }

    /// Carries a request out. The socket that may have something to send now
    /// is returned.
    pub fn perform(
        &mut self,
        pending: Pending,
        command: Command,
        now: u64,
        output: &mut DriveOutput,
    ) -> (socket: Option<u32>)
        requires
            old(self).wf(),
            performable(command),
            old(self).state@.usable(old(self).config, pending, command),
            old(self).state@.countable(old(self).config, pending, command),
        ensures
            final(self).wf(),
            final(self).config == old(self).config,
            final(self).base == old(self).base,
            exists|outcome: OutcomeView|
                {
                    let expected = #[trigger] old(self).state@.settle(
                        old(self).config,
                        pending,
                        command,
                        outcome,
                        old(output)@,
                    );
                    &&& answers(
                        old(self).state@.consult(old(self).config, pending, command),
                        command,
                        old(self).state@.links.len() as int,
                        outcome,
                    )
                    &&& final(self).state@ == expected.state
                    &&& final(output)@ == expected.output
                    &&& socket == expected.socket
                    &&& final(self).endpoints@ == ports_kept(
                        old(self).endpoints@,
                        expected.dropped,
                    )
                    &&& final(self).records() == recorded(
                        old(self).records(),
                        question(
                            old(self).state@.consult(old(self).config, pending, command),
                            command,
                            now,
                            outcome,
                        ),
                    )
                },
    {
        let consult = self.state.consult(&self.config, pending, &command);
        assert(self.state@.consult(self.config, pending, command) == consult);
        let outcome = self.ask(consult, &command, now);
        let ghost before = self.state@;
        let ghost seen = outcome@;
        let ghost expected = before.settle(self.config, pending, command, seen, output@);
        let followup = self.state.settle(&self.config, pending, command, outcome, output);
        proof {
            assert(expected == old(self).state@.settle(
                old(self).config,
                pending,
                command,
                seen,
                old(output)@,
            ));
            lemma_settle_keeps_sides(before, self.config, pending, command, seen, old(output)@);
            assert forall|i: int| 0 <= i < self.engines@.len() implies (
            #[trigger] self.engines@[i]).server() == self.state.links@[i].listener.is_some() by {
                assert(self.state@.links[i].listener == before.links[i].listener);
                assert(before.links[i] == old(self).state.links@[i]@);
            }
        }
        if let Some(place) = followup.dropped {
            proof {
                lemma_settle_drops(before, self.config, pending, command, seen, old(output)@);
            }
            let _ = self.endpoints.remove(place);
        } else {
            proof {
                lemma_settle_drops(before, self.config, pending, command, seen, old(output)@);
            }
        }
        followup.socket
    }

    /// Passes what connections have for their endpoint to it, and its answers
    /// back, until neither has anything left.
    fn exchange(&mut self, place: usize, handles: &Vec<Bound>)
        requires
            old(self).wf(),
            place < old(self).endpoints@.len(),
        ensures
            final(self).wf(),
            final(self).state == old(self).state,
            final(self).config == old(self).config,
            final(self).base == old(self).base,
            exchanged(
                old(self).state@,
                handles@,
                old(self).engines@,
                final(self).engines@,
                old(self).endpoints@[place as int].met(),
                final(self).endpoints@[place as int].met(),
            ),
            others_kept(old(self).endpoints@, final(self).endpoints@, place as int),
            only_heard(old(self).endpoints@[place as int], final(self).endpoints@[place as int]),
    {
        let mut turns: u64 = u64::MAX;
        let mut more = true;
        let ghost state = self.state@;
        let ghost engines = self.engines@;
        let ghost port = self.endpoints@[place as int];
        let ghost met = port.met();
        let ghost mut rounds: Seq<Round> = Seq::empty();
        assert(met.take(met.len() as int) =~= met);
        proof {
            assert forall|p: int| 0 <= p < engines.len() implies (
            #[trigger] self.engines@[p]).asked() == engines[p].asked() + asked_over(
                state,
                handles@,
                met,
                rounds,
                p,
            ) by {
                assert(engines[p].asked() + Seq::<Asked>::empty() =~= engines[p].asked());
            }
        }
        while more && turns > 0
            invariant
                state == self.state@,
                engines == old(self).engines@,
                self.engines@.len() == engines.len(),
                port == old(self).endpoints@[place as int],
                met == port.met(),
                only_heard(port, self.endpoints@[place as int]),
                others_kept(old(self).endpoints@, self.endpoints@, place as int),
                self.wf(),
                self.state == old(self).state,
                self.config == old(self).config,
                self.base == old(self).base,
                place < self.endpoints@.len(),
                rounds.len() + turns == u64::MAX,
                rounds.len() == 0 ==> more,
                rounds.len() > 0 && !more ==> all_reports(
                    state,
                    handles@,
                    rounds.last().events,
                ).len() == 0,
                forall|k: int|
                    0 <= k < rounds.len() ==> round_whole(state, handles@, #[trigger] rounds[k]),
                self.endpoints@[place as int].met() == met_over(state, handles@, met, rounds),
                forall|p: int|
                    0 <= p < engines.len() ==> (#[trigger] self.engines@[p]).asked()
                        == engines[p].asked() + asked_over(state, handles@, met, rounds, p),
            decreases turns,
        {
            let ghost earlier = rounds;
            let ghost begun = self.engines@;
            more = self.exchange_round(place, handles);
            proof {
                let heard_before = met_over(state, handles@, met, earlier);
                let round = choose|round: Round|
                    {
                        &&& #[trigger] round_whole(state, handles@, round)
                        &&& more <==> all_reports(state, handles@, round.events).len() > 0
                        &&& self.endpoints@[place as int].met() == heard(
                            heard_before,
                            all_reports(state, handles@, round.events),
                            round.answers,
                        )
                        &&& forall|p: int|
                            0 <= p < begun.len() ==> (#[trigger] self.engines@[p]).asked()
                                == begun[p].asked() + asked_at(state, handles@, round.asked, p)
                                + told_at(
                                heard_before,
                                all_reports(state, handles@, round.events),
                                round.answers,
                                p,
                            )
                    };
                rounds = earlier.push(round);
                assert(rounds.drop_last() =~= earlier);
                assert forall|p: int| 0 <= p < engines.len() implies (
                #[trigger] self.engines@[p]).asked() == engines[p].asked() + asked_over(
                    state,
                    handles@,
                    met,
                    rounds,
                    p,
                ) by {
                    assert(begun[p].asked() == engines[p].asked() + asked_over(
                        state,
                        handles@,
                        met,
                        earlier,
                        p,
                    ));
                    assert(self.engines@[p].asked() =~= engines[p].asked() + asked_over(
                        state,
                        handles@,
                        met,
                        rounds,
                        p,
                    ));
                }
            }
            turns = turns - 1;
        }
        assert(rounds_over(
            state,
            handles@,
            engines,
            self.engines@,
            met,
            self.endpoints@[place as int].met(),
            rounds,
        ));
    }

    /// One round of that; whether there was anything.
    fn exchange_round(&mut self, place: usize, handles: &Vec<Bound>) -> (more: bool)
        requires
            old(self).wf(),
            place < old(self).endpoints@.len(),
        ensures
            final(self).wf(),
            final(self).state == old(self).state,
            final(self).config == old(self).config,
            final(self).base == old(self).base,
            final(self).engines@.len() == old(self).engines@.len(),
            others_kept(old(self).endpoints@, final(self).endpoints@, place as int),
            forall|port: Port| #[trigger]
                only_heard(port, old(self).endpoints@[place as int]) ==> only_heard(
                    port,
                    final(self).endpoints@[place as int],
                ),
            exists|round: Round|
                {
                    &&& #[trigger] round_whole(old(self).state@, handles@, round)
                    &&& more <==> all_reports(old(self).state@, handles@, round.events).len() > 0
                    &&& final(self).endpoints@[place as int].met() == heard(
                        old(self).endpoints@[place as int].met(),
                        all_reports(old(self).state@, handles@, round.events),
                        round.answers,
                    )
                    &&& forall|p: int|
                        0 <= p < old(self).engines@.len() ==> (
                        #[trigger] final(self).engines@[p]).asked()
                            == old(self).engines@[p].asked() + asked_at(
                            old(self).state@,
                            handles@,
                            round.asked,
                            p,
                        ) + told_at(
                            old(self).endpoints@[place as int].met(),
                            all_reports(old(self).state@, handles@, round.events),
                            round.answers,
                            p,
                        )
                },
    {
        let ghost state = self.state@;
        let ghost engines = self.engines@;
        let ghost port = self.endpoints@[place as int];
        let ghost met = port.met();
        let ghost mut events: Seq<Seq<EndpointEvent>> = Seq::empty();
        let ghost mut asked: Seq<Seq<Asked>> = Seq::empty();
        let mut queue: VecDeque<(usize, usize, EndpointEvent)> = VecDeque::new();
        let mut i: usize = 0;
        assert(handles@.take(0) =~= Seq::empty());
        assert(noted_all(queue@) =~= all_reports(state, handles@.take(0), events));
        proof {
            assert forall|p: int| 0 <= p < engines.len() implies (
            #[trigger] self.engines@[p]).asked() == engines[p].asked() + asked_at(
                state,
                handles@.take(0),
                asked,
                p,
            ) by {
                assert(engines[p].asked() + Seq::<Asked>::empty() =~= engines[p].asked());
            }
        }
        while i < handles.len()
            invariant
                i <= handles@.len(),
                state == self.state@,
                engines == old(self).engines@,
                self.engines@.len() == engines.len(),
                self.endpoints == old(self).endpoints,
                self.wf(),
                self.state == old(self).state,
                self.config == old(self).config,
                self.base == old(self).base,
                events.len() == i,
                asked.len() == i,
                noted_all(queue@) == all_reports(state, handles@.take(i as int), events),
                forall|k: int|
                    0 <= k < queue@.len() ==> (#[trigger] queue@[k]).1 < engines.len(),
                forall|k: int|
                    0 <= k < i && state.has_link((#[trigger] handles@[k]).id) ==> exhausted(
                        asked[k],
                        reporting(events[k]),
                        Asked::Report { event: None },
                        events[k].len(),
                    ),
                forall|p: int|
                    0 <= p < engines.len() ==> (#[trigger] self.engines@[p]).asked()
                        == engines[p].asked() + asked_at(
                        state,
                        handles@.take(i as int),
                        asked,
                        p,
                    ),
            decreases handles@.len() - i,
        {
            let ghost begun = self.engines@;
            let ghost waiting = queue@;
            let ghost (events_before, asked_before) = (events, asked);
            let ghost mut list: Seq<EndpointEvent> = Seq::empty();
            let ghost mut said: Seq<Asked> = Seq::empty();
            let ghost bound = handles@[i as int];
            let found = self.state.find_link(handles[i].id);
            if let Some(link) = found {
                self.take_endpoint_events(handles[i].handle, link, &mut queue);
                proof {
                    let pair = choose|list: Seq<EndpointEvent>, said: Seq<Asked>|
                        {
                            &&& #[trigger] exhausted(
                                said,
                                reporting(list),
                                Asked::Report { event: None },
                                list.len(),
                            )
                            &&& noted_all(queue@) == noted_all(waiting) + reports_of(
                                bound.handle,
                                link as int,
                                list,
                            )
                            &&& self.engines@[link as int].asked() == begun[link as int].asked()
                                + said
                        };
                    list = pair.0;
                    said = pair.1;
                }
            }
            proof {
                events = events.push(list);
                asked = asked.push(said);
                assert(events.drop_last() =~= events_before);
                assert(asked.drop_last() =~= asked_before);
                assert(handles@.take(i + 1).drop_last() =~= handles@.take(i as int));
                assert(handles@.take(i + 1).last() == bound);
                assert forall|p: int| 0 <= p < engines.len() implies (
                #[trigger] self.engines@[p]).asked() == engines[p].asked() + asked_at(
                    state,
                    handles@.take(i + 1),
                    asked,
                    p,
                ) by {
                    let before = asked_at(state, handles@.take(i as int), asked_before, p);
                    assert(begun[p].asked() == engines[p].asked() + before);
                    assert(engines[p].asked() + before + said =~= engines[p].asked() + (before
                        + said));
                }
            }
            i = i + 1;
        }
        assert(handles@.take(i as int) =~= handles@);
        let more = queue.len() > 0;
        let ghost reports = noted_all(queue@);
        let ghost asked_all = self.engines@;
        let ghost mut answers: Seq<Option<ConnectionEvent>> = Seq::empty();
        let ghost entries = queue@;
        let ghost mut done: int = 0;
        assert(reports.take(0) =~= Seq::empty());
        assert(entries.skip(0) =~= entries);
        proof {
            assert forall|p: int| 0 <= p < engines.len() implies (
            #[trigger] self.engines@[p]).asked() == asked_all[p].asked() + told_at(
                met,
                reports.take(0),
                answers,
                p,
            ) by {
                assert(asked_all[p].asked() + Seq::<Asked>::empty() =~= asked_all[p].asked());
            }
        }
        while queue.len() > 0
            invariant
                0 <= done <= entries.len(),
                queue@ == entries.skip(done),
                reports == noted_all(entries),
                forall|k: int|
                    0 <= k < entries.len() ==> (#[trigger] entries[k]).1 < engines.len(),
                engines == old(self).engines@,
                self.engines@.len() == engines.len(),
                asked_all.len() == engines.len(),
                port == old(self).endpoints@[place as int],
                met == port.met(),
                forall|earlier: Port| #[trigger]
                    only_heard(earlier, port) ==> only_heard(
                        earlier,
                        self.endpoints@[place as int],
                    ),
                others_kept(old(self).endpoints@, self.endpoints@, place as int),
                self.wf(),
                self.state == old(self).state,
                self.config == old(self).config,
                self.base == old(self).base,
                place < self.endpoints@.len(),
                answers.len() == done,
                self.endpoints@[place as int].met() == heard(met, reports.take(done), answers),
                forall|p: int|
                    0 <= p < engines.len() ==> (#[trigger] self.engines@[p]).asked()
                        == asked_all[p].asked() + told_at(met, reports.take(done), answers, p),
            decreases queue@.len(),
        {
            let ghost begun = self.engines@;
            let ghost ports = self.endpoints@;
            let ghost answers_before = answers;
            if let Some((handle, link, event)) = queue.pop_front() {
                assert(entries[done] == (handle, link, event));
                let answer = engine::pass_event(&mut self.endpoints[place], handle, event);
                proof {
                    answers = answers.push(answer);
                    assert(answers.drop_last() =~= answers_before);
                    assert(reports.take(done + 1).drop_last() =~= reports.take(done));
                    assert(reports.take(done + 1).last() == (handle, link as int, event));
                    let (was, is) = (ports[place as int], self.endpoints@[place as int]);
                    assert forall|earlier: Port| #[trigger] only_heard(earlier, port) implies
                        only_heard(earlier, is) by {
                        assert(only_heard(earlier, was));
                        assert(is.met().take(earlier.met().len() as int) =~= was.met().take(
                            earlier.met().len() as int,
                        ));
                    }
                }
                if let Some(answer) = answer {
                    engine::connection_event(&mut self.engines[link], answer);
                }
                proof {
                    assert forall|p: int| 0 <= p < engines.len() implies (
                    #[trigger] self.engines@[p]).asked() == asked_all[p].asked() + told_at(
                        met,
                        reports.take(done + 1),
                        answers,
                        p,
                    ) by {
                        assert(begun[p].asked() == asked_all[p].asked() + told_at(
                            met,
                            reports.take(done),
                            answers_before,
                            p,
                        ));
                        assert(self.engines@[p].asked() =~= asked_all[p].asked() + told_at(
                            met,
                            reports.take(done + 1),
                            answers,
                            p,
                        ));
                    }
                    assert(entries.skip(done).skip(1) =~= entries.skip(done + 1));
                    done = done + 1;
                }
            }
        }
        proof {
            assert(done == entries.len());
            assert(reports.take(done) =~= reports);
            let round = Round { events, asked, answers };
            assert(round_whole(state, handles@, round));
        }
        more
    }

    /// Takes what one connection has for its endpoint.
    fn take_endpoint_events(
        &mut self,
        handle: usize,
        link: usize,
        events: &mut VecDeque<(usize, usize, EndpointEvent)>,
    )
        requires
            old(self).wf(),
            link < old(self).engines@.len(),
            forall|k: int|
                0 <= k < old(events)@.len() ==> (#[trigger] old(events)@[k]).1
                    < old(self).engines@.len(),
        ensures
            final(self).wf(),
            final(self).state == old(self).state,
            final(self).config == old(self).config,
            final(self).base == old(self).base,
            final(self).endpoints == old(self).endpoints,
            final(self).engines@.len() == old(self).engines@.len(),
            forall|p: int|
                0 <= p < final(self).engines@.len() && p != link ==> (
                #[trigger] final(self).engines@[p]) == old(self).engines@[p],
            forall|k: int|
                0 <= k < final(events)@.len() ==> (#[trigger] final(events)@[k]).1
                    < final(self).engines@.len(),
            exists|list: Seq<EndpointEvent>, said: Seq<Asked>|
                {
                    &&& #[trigger] exhausted(
                        said,
                        reporting(list),
                        Asked::Report { event: None },
                        list.len(),
                    )
                    &&& noted_all(final(events)@) == noted_all(old(events)@) + reports_of(
                        handle,
                        link as int,
                        list,
                    )
                    &&& final(self).engines@[link as int].asked()
                        == old(self).engines@[link as int].asked() + said
                },
    {
        let ghost record = self.engines@[link as int].asked();
        let ghost none = Asked::Report { event: None };
        let ghost mut list: Seq<EndpointEvent> = Seq::empty();
        let mut turns: u64 = u64::MAX;
        let mut more = true;
        assert(record + reporting(list) =~= record);
        assert(noted_all(events@) + reports_of(handle, link as int, list) =~= noted_all(events@));
        while more && turns > 0
            invariant
                none == (Asked::Report { event: None }),
                self.wf(),
                self.state == old(self).state,
                self.config == old(self).config,
                self.base == old(self).base,
                link < self.engines@.len(),
                self.endpoints == old(self).endpoints,
                self.engines@.len() == old(self).engines@.len(),
                forall|p: int|
                    0 <= p < self.engines@.len() && p != link ==> (#[trigger] self.engines@[p])
                        == old(self).engines@[p],
                forall|k: int|
                    0 <= k < events@.len() ==> (#[trigger] events@[k]).1 < self.engines@.len(),
                list.len() + turns == u64::MAX || !more,
                more ==> self.engines@[link as int].asked() == record + reporting(list),
                !more ==> self.engines@[link as int].asked() == record + reporting(list).push(none),
                noted_all(events@) == noted_all(old(events)@) + reports_of(
                    handle,
                    link as int,
                    list,
                ),
            decreases turns,
        {
            let ghost earlier = list;
            match engine::next_endpoint_event(&mut self.engines[link]) {
                Some(event) => {
                    let ghost waiting = events@;
                    events.push_back((handle, link, event));
                    proof {
                        list = list.push(event);
                        assert(self.engines@[link as int].asked() =~= record + reporting(list));
                        assert(noted_all(events@) =~= noted_all(waiting).push(
                            (handle, link as int, event),
                        ));
                        assert(noted_all(events@) =~= noted_all(old(events)@) + reports_of(
                            handle,
                            link as int,
                            list,
                        ));
                    }
                },
                None => {
                    more = false;
                    assert(self.engines@[link as int].asked() =~= record + reporting(list).push(
                        none,
                    ));
                },
            }
            turns = turns - 1;
        }
        let ghost said = if more {
            reporting(list)
        } else {
            reporting(list).push(none)
        };
        assert(exhausted(said, reporting(list), none, list.len()));
    }

    /// One connection's turn.
    fn serve(&mut self, socket: u32, place: usize, now: u64, output: &mut DriveOutput)
        requires
            old(self).wf(),
            place < old(self).engines@.len(),
        ensures
            final(self).wf(),
            final(self).config == old(self).config,
            final(self).base == old(self).base,
            exists|work: Work|
                {
                    let turn = #[trigger] served(
                        old(self).state@.links[place as int],
                        old(output)@,
                        work,
                        old(self).config.write_low_water as int,
                    );
                    &&& final(self).state@ == (StateView {
                        links: old(self).state@.links.update(place as int, turn.0),
                        ..old(self).state@
                    })
                    &&& final(output)@ == turn.1
                    &&& turn.0.id == old(self).state@.links[place as int].id
                    &&& worked(
                        work,
                        old(self).state@.links[place as int],
                        old(output)@,
                        old(self).config,
                        socket,
                        now,
                    )
                    &&& final(self).engines@[place as int].asked()
                        == old(self).engines@[place as int].asked() + work.asked
                },
            final(self).endpoints == old(self).endpoints,
            final(self).engines@.len() == old(self).engines@.len(),
            forall|i: int|
                0 <= i < final(self).engines@.len() && i != place ==> (#[trigger] final(self).engines@[i])
                    == old(self).engines@[i],
    {
        let config = self.config;
        let ghost record = self.engines@[place as int].asked();
        let ghost before = self.state;
        let ghost start = self.state.links@[place as int]@;
        let ghost low = config.write_low_water as int;
        assert(self.state@.links[place as int] == start);
        poll_application(
            &mut self.engines[place],
            &mut self.state.links[place],
            &config,
            output,
        );
        let ghost seen = self.state.links@[place as int]@;
        let ghost told = output@;
        let ghost record_seen = self.engines@[place as int].asked();
        flush_writes(
            &mut self.engines[place],
            &mut self.state.links[place],
            config.write_low_water,
            output,
        );
        let ghost flushed_output = output@;
        let ghost record_flushed = self.engines@[place as int].asked();
        let ghost mut packets: Seq<PacketView> = Seq::empty();
        assert(flushed_output.packets + packets =~= flushed_output.packets);
        let ghost links = self.state.links@;
        let ghost none = Asked::Transmit { now, sent: None };
        let mut turns: u64 = u64::MAX;
        let mut more = true;
        assert(record_flushed + transmits_asked(now, packets) =~= record_flushed);
        while more && turns > 0
            invariant
                place < self.engines@.len(),
                self.endpoints == old(self).endpoints,
                none == (Asked::Transmit { now, sent: None }),
                packets.len() + turns == u64::MAX || !more,
                more ==> self.engines@[place as int].asked() == record_flushed + transmits_asked(
                    now,
                    packets,
                ),
                !more ==> self.engines@[place as int].asked() == record_flushed + transmits_asked(
                    now,
                    packets,
                ).push(none),
                forall|i: int|
                    0 <= i < packets.len() ==> (#[trigger] packets[i]).socket == socket,
                self.engines@.len() == old(self).engines@.len(),
                forall|i: int|
                    0 <= i < self.engines@.len() && i != place ==> (#[trigger] self.engines@[i])
                        == old(self).engines@[i],
                self.config == old(self).config,
                self.base == old(self).base,
                self.state.links@ == links,
                self.state.endpoints == before.endpoints,
                self.state.next_listener == before.next_listener,
                self.state.next_connection == before.next_connection,
                self.state.reserved_connections == before.reserved_connections,
                self.state.reserved_handshakes == before.reserved_handshakes,
                paired(&self.state, self.endpoints@, self.engines@),
                output@ == (OutputView {
                    packets: flushed_output.packets + packets,
                    ..flushed_output
                }),
            decreases turns,
        {
            let next = engine::next_transmit(&mut self.engines[place], &self.base, now);
            match next {
                None => {
                    more = false;
                    assert(self.engines@[place as int].asked() =~= record_flushed
                        + transmits_asked(now, packets).push(none));
                },
                Some(datagram) => {
                    let Datagram { destination, data } = datagram;
                    proof {
                        let packet = PacketView { socket, destination: destination@, data: data@ };
                        assert((flushed_output.packets + packets).push(packet)
                            =~= flushed_output.packets + packets.push(packet));
                        packets = packets.push(packet);
                        assert(self.engines@[place as int].asked() =~= record_flushed
                            + transmits_asked(now, packets));
                    }
                    output.packet(socket, destination, data);
                },
            }
            turns = turns - 1;
        }
        proof {
            let happenings = choose|happenings: Seq<Happening>|
                (seen, told) == #[trigger] happen_all(start, old(output)@, happenings, low)
                    && exists|asked: Seq<Asked>, signals: Seq<Signal>, pieces: Seq<Seq<Asked>>|
                    {
                        &&& record_seen == record + asked
                        &&& asks_all(signals, pieces, start, old(output)@, happenings, config)
                        &&& #[trigger] exhausted(
                            asked,
                            polled(signals, pieces),
                            Asked::Poll { signal: None },
                            happenings.len(),
                        )
                    };
            let (poll, signals, pieces) = choose|
                asked: Seq<Asked>,
                signals: Seq<Signal>,
                pieces: Seq<Seq<Asked>>,
            |
                {
                    &&& record_seen == record + asked
                    &&& asks_all(signals, pieces, start, old(output)@, happenings, config)
                    &&& #[trigger] exhausted(
                        asked,
                        polled(signals, pieces),
                        Asked::Poll { signal: None },
                        happenings.len(),
                    )
                };
            let streams = choose|streams: Seq<FlushTurn>|
                (self.state.links@[place as int]@, flushed_output) == #[trigger] flushed_all(
                    seen,
                    told,
                    streams,
                    low,
                ) && record_flushed == record_seen + flush_all_asked(seen, told, streams, low)
                    && all_turned(seen.writes, streams) && turns_over(seen, told, streams, low);
            let sends = if more {
                transmits_asked(now, packets)
            } else {
                transmits_asked(now, packets).push(none)
            };
            let asked = poll + flush_all_asked(seen, told, streams, low) + sends;
            assert(self.engines@[place as int].asked() =~= record + asked);
            let work = Work { happenings, turns: streams, packets, asked };
            assert(exhausted(
                poll,
                polled(signals, pieces),
                Asked::Poll { signal: None },
                work.happenings.len(),
            ));
            assert(exhausted(
                sends,
                transmits_asked(now, work.packets),
                none,
                work.packets.len(),
            ));
            assert((seen, told) == happen_all(start, old(output)@, work.happenings, low));
            assert(worked(work, start, old(output)@, config, socket, now));
            assert(self.state.links@ =~= before.links@.update(
                place as int,
                self.state.links@[place as int],
            ));
            self.state.lemma_one_link(before, place as int);
            let turn = served(start, old(output)@, work, low);
            assert(turn.0 == self.state.links@[place as int]@);
        }
    }

    /// Gives each connection of a socket its turn, takes out those of which
    /// nothing is left, and sets the timer of the endpoint.
    pub fn drive(&mut self, socket: u32, now: u64) -> (output: DriveOutput)
        requires
            old(self).wf(),
        ensures
            final(self).wf(),
            final(self).config == old(self).config,
            final(self).base == old(self).base,
            exists|work: Seq<Work>, drained: Seq<Bound>, deadline: Option<u64>|
                (final(self).state@, output@) == #[trigger] driven(
                    old(self).state@,
                    socket,
                    now,
                    old(self).config.write_low_water as int,
                    work,
                    drained,
                    deadline,
                ) && drive_asks(
                    old(self).state@,
                    old(self).engines@,
                    old(self).endpoints@,
                    socket,
                    now,
                    old(self).config,
                    work,
                    drained,
                    deadline,
                    final(self).state@,
                    final(self).engines@,
                    final(self).endpoints@,
                ),
            ports_driven(
                old(self).state@,
                old(self).endpoints@,
                socket,
                final(self).state@,
                final(self).endpoints@,
            ),
    {
        let mut output = DriveOutput::default();
        let ghost start = self.state@;
        let ghost low = self.config.write_low_water as int;
        let endpoint = match self.state.find_endpoint(socket) {
            None => {
                proof {
                    lemma_own_ports(start, self.endpoints@, socket);
                }
                assert((self.state@, output@) == driven(
                    start,
                    socket,
                    now,
                    low,
                    Seq::empty(),
                    Seq::empty(),
                    None,
                ));
                return output;
            },
            Some(endpoint) => endpoint,
        };
        assert(self.state@.endpoints[endpoint as int] == self.state.endpoints@[endpoint as int]@);
        let handles = self.state.endpoints[endpoint].connections.clone();
        assert(handles@ =~= start.endpoints[endpoint as int].connections);
        self.exchange(endpoint, &handles);
        let ghost met = self.engines@;
        let ghost ports = self.endpoints@;
        let ghost mut work: Seq<Work> = Seq::empty();
        assert(work_asked(work) =~= Seq::empty());
        proof {
            assert forall|p: int| 0 <= p < met.len() implies (#[trigger] self.engines@[p]).asked()
                == met[p].asked() + asked_at(start, handles@.take(0), work_asked(work), p) by {
                assert(met[p].asked() + Seq::<Asked>::empty() =~= met[p].asked());
            }
        }
        let mut i: usize = 0;
        assert(handles@.take(0) =~= Seq::empty());
        while i < handles.len()
            invariant
                i <= handles@.len(),
                self.wf(),
                self.config == old(self).config,
                self.base == old(self).base,
                low == self.config.write_low_water,
                work.len() == i,
                self.engines@.len() == met.len(),
                forall|p: int|
                    0 <= p < met.len() ==> (#[trigger] self.engines@[p]).asked() == met[p].asked()
                        + asked_at(start, handles@.take(i as int), work_asked(work), p),
                worked_all(
                    start,
                    OutputView::empty(),
                    handles@.take(i as int),
                    work,
                    self.config,
                    socket,
                    now,
                ),
                same_ids(start, self.state@),
                self.endpoints@ == ports,
                self.state@.endpoints == start.endpoints,
                (self.state@, output@) == served_all(
                    start,
                    OutputView::empty(),
                    handles@.take(i as int),
                    work,
                    low,
                ),
            decreases handles@.len() - i,
        {
            let ghost s = self.state@;
            let ghost o = output@;
            let ghost mut turn = Work {
                happenings: Seq::empty(),
                turns: Seq::empty(),
                packets: Seq::empty(),
                asked: Seq::empty(),
            };
            let ghost engines = self.engines@;
            if let Some(place) = self.state.find_link(handles[i].id) {
                self.serve(socket, place, now, &mut output);
                proof {
                    turn = choose|turn: Work|
                        {
                            let done = #[trigger] served(s.links[place as int], o, turn, low);
                            &&& self.state@ == (StateView {
                                links: s.links.update(place as int, done.0),
                                ..s
                            })
                            &&& output@ == done.1
                            &&& done.0.id == s.links[place as int].id
                            &&& worked(
                                turn,
                                s.links[place as int],
                                o,
                                self.config,
                                socket,
                                now,
                            )
                            &&& self.engines@[place as int].asked() == engines[place as int].asked()
                                + turn.asked
                        };
                    assert(self.state@ == s.with_link(
                        handles@[i as int].id,
                        served(s.links[place as int], o, turn, low).0,
                    ));
                }
            }
            proof {
                let earlier = work;
                work = work.push(turn);
                assert(work.drop_last() =~= earlier);
                assert(handles@.take(i + 1).drop_last() =~= handles@.take(i as int));
                assert(work_asked(work).drop_last() =~= work_asked(earlier));
                lemma_same_ids(start, s);
                assert forall|p: int| 0 <= p < met.len() implies (
                #[trigger] self.engines@[p]).asked() == met[p].asked() + asked_at(
                    start,
                    handles@.take(i + 1),
                    work_asked(work),
                    p,
                ) by {
                    let before = asked_at(
                        start,
                        handles@.take(i as int),
                        work_asked(earlier),
                        p,
                    );
                    assert(engines[p].asked() == met[p].asked() + before);
                    assert(met[p].asked() + before + turn.asked =~= met[p].asked() + (before
                        + turn.asked));
                }
            }
            i = i + 1;
        }
        assert(handles@.take(i as int) =~= handles@);
        let ghost turned = self.state@;
        let ghost sent = output@;
        let ghost turned_engines = self.engines@;
        let (drained, deadline) = self.survey(&handles);
        let ghost reports = choose|reports: Seq<Report>|
            {
                &&& reports.len() == handles@.len()
                &&& (drained@, deadline) == #[trigger] surveyed(turned, handles@, reports)
                &&& forall|p: int|
                    0 <= p < self.engines@.len() ==> (#[trigger] self.engines@[p]).asked()
                        == turned_engines[p].asked() + asked_at(
                        turned,
                        handles@,
                        reports_asked(reports),
                        p,
                    )
            };
        proof {
            lemma_same_ids(start, turned);
            lemma_same_survey(start, turned, handles@, reports);
            assert forall|k: int| 0 <= k < self.engines@.len() implies (
            #[trigger] self.engines@[k]).asked() == met[start.link_place(
                self.state@.links[k].id,
            )].asked() + asked_at(
                start,
                handles@,
                work_asked(work),
                start.link_place(self.state@.links[k].id),
            ) + asked_at(
                start,
                handles@,
                reports_asked(reports),
                start.link_place(self.state@.links[k].id),
            ) by {
                start.lemma_own_place(k);
                lemma_same_asked(start, turned, handles@, reports_asked(reports), k);
            }
            assert(records_left(start, handles@, met, work, reports, self.state@, self.engines@));
        }
        let mut j: usize = 0;
        assert(drained@.take(0) =~= Seq::empty());
        while j < drained.len()
            invariant
                j <= drained@.len(),
                self.wf(),
                self.config == old(self).config,
                self.base == old(self).base,
                self.state@ == turned.without_all(socket, drained@.take(j as int)),
                records_left(start, handles@, met, work, reports, self.state@, self.engines@),
                self.endpoints@ == ports,
                same_sockets(start, self.state@),
            decreases drained@.len() - j,
        {
            let ghost engines = self.engines@;
            let ghost links = self.state@.links;
            let ghost place = self.state@.link_place(drained@[j as int].id);
            proof {
                let id = drained@[j as int].id;
                lemma_first_place(links, |link: LinkView| link.id == id);
            }
            proof {
                lemma_without_keeps_sockets(start, self.state@, socket, drained@[j as int]);
            }
            self.discard(socket, drained[j]);
            proof {
                assert forall|k: int| 0 <= k < self.engines@.len() implies {
                    let m = if place < links.len() && k >= place {
                        k + 1
                    } else {
                        k
                    };
                    (#[trigger] self.engines@[k]) == engines[m] && self.state@.links[k] == links[m]
                } by {}
            }
            assert(drained@.take(j + 1).drop_last() =~= drained@.take(j as int));
            j = j + 1;
        }
        assert(drained@.take(j as int) =~= drained@);
        let ghost before = self.state;
        let dropped = self.state.rest(socket, deadline, now, &mut output);
        proof {
            lemma_same_place(start, before@, socket);
        }
        proof {
            assert forall|k: int| 0 <= k < self.engines@.len() implies (
            #[trigger] self.engines@[k]).server() == self.state.links@[k].listener.is_some() by {
                assert(self.state@.links[k] == before@.links[k]);
                assert(self.state@.links[k] == self.state.links@[k]@);
                assert(before@.links[k] == before.links@[k]@);
            }
            assert(self.state@.links.len() == before@.links.len());
        }
        if let Some(place) = dropped {
            let _ = self.endpoints.remove(place);
        }
        proof {
            lemma_ports_left(
                start,
                old(self).endpoints@,
                ports,
                endpoint as int,
                before@,
                socket,
                self.state@,
                self.endpoints@,
                dropped is Some,
            );
            let heard = ports[endpoint as int].met();
            assert(exchanged(
                start,
                handles@,
                old(self).engines@,
                met,
                old(self).endpoints@[endpoint as int].met(),
                heard,
            ));
            assert forall|i: int|
                0 <= i < self.endpoints@.len() && self.state@.endpoints[i].socket
                    == socket implies (#[trigger] self.endpoints@[i]).met() == heard by {
                lemma_ports_place(
                    start,
                    before@,
                    self.state@,
                    socket,
                    endpoint as int,
                    i,
                    dropped is Some,
                );
            }
            assert((drained@, deadline) == surveyed(start, handles@, reports));
            assert(self.state@.links =~= before@.links);
            assert(records_left(start, handles@, met, work, reports, self.state@, self.engines@));
            assert((self.state@, output@) == driven(
                start,
                socket,
                now,
                low,
                work,
                drained@,
                deadline,
            ));
        }
        output
    }

    /// Which of the connections nothing is left of, and when the first of the
    /// others wants to be woken.
    fn survey(&mut self, handles: &Vec<Bound>) -> (found: (Vec<Bound>, Option<u64>))
        requires
            old(self).wf(),
        ensures
            final(self).wf(),
            final(self).state == old(self).state,
            final(self).config == old(self).config,
            final(self).base == old(self).base,
            final(self).endpoints == old(self).endpoints,
            final(self).engines@.len() == old(self).engines@.len(),
            exists|reports: Seq<Report>|
                {
                    &&& reports.len() == handles@.len()
                    &&& (found.0@, found.1) == #[trigger] surveyed(
                        old(self).state@,
                        handles@,
                        reports,
                    )
                    &&& forall|p: int|
                        0 <= p < final(self).engines@.len() ==> (#[trigger] final(self).engines@[p]).asked()
                            == old(self).engines@[p].asked() + asked_at(
                            old(self).state@,
                            handles@,
                            reports_asked(reports),
                            p,
                        )
                },
    {
        let mut drained: Vec<Bound> = Vec::new();
        let mut deadline: Option<u64> = None;
        let ghost start = self.state@;
        let ghost engines = self.engines@;
        let ghost mut reports: Seq<Report> = Seq::empty();
        let mut i: usize = 0;
        assert(handles@.take(0) =~= Seq::empty());
        proof {
            assert forall|p: int| 0 <= p < engines.len() implies (
            #[trigger] self.engines@[p]).asked() == engines[p].asked() + asked_at(
                start,
                handles@.take(0),
                reports_asked(reports),
                p,
            ) by {
                assert(engines[p].asked() + Seq::<Asked>::empty() =~= engines[p].asked());
            }
        }
        while i < handles.len()
            invariant
                i <= handles@.len(),
                self.wf(),
                self.state == old(self).state,
                self.config == old(self).config,
                self.base == old(self).base,
                self.endpoints == old(self).endpoints,
                start == self.state@,
                reports.len() == i,
                self.engines@.len() == engines.len(),
                (drained@, deadline) == surveyed(start, handles@.take(i as int), reports),
                forall|p: int|
                    0 <= p < engines.len() ==> (#[trigger] self.engines@[p]).asked()
                        == engines[p].asked() + asked_at(
                        start,
                        handles@.take(i as int),
                        reports_asked(reports),
                        p,
                    ),
            decreases handles@.len() - i,
        {
            let ghost mut report = Report { drained: true, at: None };
            let ghost earlier_engines = self.engines@;
            let found = self.state.find_link(handles[i].id);
            if let Some(place) = found {
                if engine::is_drained(&mut self.engines[place]) {
                    drained.push(handles[i]);
                } else {
                    let at = engine::next_timeout(&mut self.engines[place], &self.base);
                    deadline = earlier(deadline, at);
                    proof {
                        report = Report { drained: false, at };
                    }
                }
                assert(self.engines@[place as int].asked()
                    =~= earlier_engines[place as int].asked() + report.asked());
            }
            proof {
                let earlier = reports;
                reports = reports.push(report);
                assert(reports.drop_last() =~= earlier);
                assert(handles@.take(i + 1).drop_last() =~= handles@.take(i as int));
                assert(reports_asked(reports).drop_last() =~= reports_asked(earlier));
                assert forall|p: int| 0 <= p < engines.len() implies (
                #[trigger] self.engines@[p]).asked() == engines[p].asked() + asked_at(
                    start,
                    handles@.take(i + 1),
                    reports_asked(reports),
                    p,
                ) by {
                    let before = asked_at(
                        start,
                        handles@.take(i as int),
                        reports_asked(earlier),
                        p,
                    );
                    assert(earlier_engines[p].asked() == engines[p].asked() + before);
                    assert(engines[p].asked() + before + report.asked() =~= engines[p].asked() + (
                    before + report.asked()));
                }
            }
            i = i + 1;
        }
        assert(handles@.take(i as int) =~= handles@);
        (drained, deadline)
    }

    /// Takes a connection out of books and engine.
    fn discard(&mut self, socket: u32, bound: Bound)
        requires
            old(self).wf(),
        ensures
            final(self).wf(),
            final(self).state@ == old(self).state@.without(socket, bound),
            final(self).config == old(self).config,
            final(self).base == old(self).base,
            final(self).endpoints == old(self).endpoints,
            final(self).engines@ == (if old(self).state@.has_link(bound.id) {
                old(self).engines@.remove(old(self).state@.link_place(bound.id))
            } else {
                old(self).engines@
            }),
    {
        let ghost before = self.state;
        let found = self.state.drop_connection(socket, bound);
        if let Some(place) = found {
            proof {
                lemma_first_place(before@.links, |link: LinkView| link.id == bound.id);
            }
            let _ = self.engines.remove(place);
        }
        proof {
            assert(self.state@.links.len() == self.state.links@.len());
            assert forall|k: int| 0 <= k < self.engines@.len() implies (
            #[trigger] self.engines@[k]).server() == self.state.links@[k].listener.is_some() by {
                assert(self.state@.links[k] == self.state.links@[k]@);
                let m = match found {
                    Some(place) => if k < place {
                        k
                    } else {
                        k + 1
                    },
                    None => k,
                };
                assert(before@.links[m] == before.links@[m]@);
                assert(self.state@.links[k] == before@.links[m]);
                assert(self.engines@[k] == old(self).engines@[m]);
            }
            assert(self.state@.links.len() == self.state.links@.len());
            assert(self.state@.endpoints.len() == self.state.endpoints@.len());
        }
    }
}

/// The connections are the same ones, in the same places.
spec fn same_ids(a: StateView, b: StateView) -> bool {
    &&& a.links.len() == b.links.len()
    &&& forall|i: int| 0 <= i < a.links.len() ==> (#[trigger] a.links[i]).id == b.links[i].id
}

/// The endpoints are those of the same sockets, in the same places.
spec fn same_sockets(a: StateView, b: StateView) -> bool {
    &&& a.endpoints.len() == b.endpoints.len()
    &&& forall|i: int|
        0 <= i < b.endpoints.len() ==> a.endpoints[i].socket == (#[trigger] b.endpoints[i]).socket
}

/// Endpoints are found in the same places.
proof fn lemma_same_place(a: StateView, b: StateView, socket: u32)
    requires
        same_sockets(a, b),
    ensures
        a.endpoint_place(socket) == b.endpoint_place(socket),
{
    let holds = |endpoint: EndpointView| endpoint.socket == socket;
    lemma_first_place(b.endpoints, holds);
    let place = b.endpoint_place(socket);
    assert forall|i: int| 0 <= i < place implies !holds(#[trigger] a.endpoints[i]) by {
        assert(!holds(b.endpoints[i]));
    }
    if place < b.endpoints.len() {
        assert(a.endpoints[place].socket == b.endpoints[place].socket);
    }
    lemma_first_place_is(a.endpoints, holds, place);
}

/// Taking a connection out changes no socket.
proof fn lemma_without_keeps_sockets(a: StateView, b: StateView, socket: u32, bound: Bound)
    requires
        same_sockets(a, b),
    ensures
        same_sockets(a, b.without(socket, bound)),
{
    lemma_first_place(b.endpoints, |endpoint: EndpointView| endpoint.socket == socket);
    let left = b.without(socket, bound);
    assert forall|i: int| 0 <= i < left.endpoints.len() implies a.endpoints[i].socket == (
    #[trigger] left.endpoints[i]).socket by {
        assert(b.endpoints[i].socket == left.endpoints[i].socket);
    }
}

/// Endpoints that were asked nothing.
proof fn lemma_own_ports(state: StateView, ports: Seq<Port>, socket: u32)
    requires
        state.wf(),
        ports.len() == state.endpoints.len(),
    ensures
        ports_driven(state, ports, socket, state, ports),
{
    assert forall|i: int| 0 <= i < ports.len() implies port_left(
        state,
        ports,
        socket,
        state.endpoints[i].socket,
        #[trigger] ports[i],
    ) by {
        let own = state.endpoints[i].socket;
        lemma_first_place_is(
            state.endpoints,
            |endpoint: EndpointView| endpoint.socket == own,
            i,
        );
        assert(ports[i].met().take(ports[i].met().len() as int) =~= ports[i].met());
    }
}

/// What is left of the endpoints when one has heard what its connections had for it, and perhaps
/// has gone.
proof fn lemma_ports_left(
    start: StateView,
    old_ports: Seq<Port>,
    ports: Seq<Port>,
    place: int,
    before: StateView,
    socket: u32,
    after: StateView,
    left: Seq<Port>,
    gone: bool,
)
    requires
        start.wf(),
        old_ports.len() == start.endpoints.len(),
        0 <= place < start.endpoints.len(),
        start.endpoints[place].socket == socket,
        others_kept(old_ports, ports, place),
        only_heard(old_ports[place], ports[place]),
        same_sockets(start, before),
        if gone {
            left == ports.remove(place) && after.endpoints == before.endpoints.remove(place)
        } else {
            left == ports && same_sockets(before, after)
        },
    ensures
        ports_driven(start, old_ports, socket, after, left),
{
    assert forall|i: int| 0 <= i < left.len() implies port_left(
        start,
        old_ports,
        socket,
        after.endpoints[i].socket,
        #[trigger] left[i],
    ) by {
        let k = if gone && i >= place {
            i + 1
        } else {
            i
        };
        let own = after.endpoints[i].socket;
        assert(before.endpoints[k].socket == own);
        assert(start.endpoints[k].socket == own);
        lemma_first_place_is(
            start.endpoints,
            |endpoint: EndpointView| endpoint.socket == own,
            k,
        );
        assert(left[i] == ports[k]);
        assert(old_ports[k].met().take(old_ports[k].met().len() as int) =~= old_ports[k].met());
        if k != place {
            assert(start.endpoints[k].socket != start.endpoints[place].socket);
        }
    }
}

/// The endpoint of the socket stands where it stood, or is gone.
proof fn lemma_ports_place(
    start: StateView,
    before: StateView,
    after: StateView,
    socket: u32,
    place: int,
    i: int,
    gone: bool,
)
    requires
        start.wf(),
        0 <= place < start.endpoints.len(),
        start.endpoints[place].socket == socket,
        same_sockets(start, before),
        if gone {
            after.endpoints == before.endpoints.remove(place)
        } else {
            same_sockets(before, after)
        },
        0 <= i < after.endpoints.len(),
        after.endpoints[i].socket == socket,
    ensures
        !gone,
        i == place,
{
    let k = if gone && i >= place {
        i + 1
    } else {
        i
    };
    assert(before.endpoints[k].socket == socket);
    assert(start.endpoints[k].socket == socket);
    if k < place {
        assert(start.endpoints[k].socket != start.endpoints[place].socket);
    } else if k > place {
        assert(start.endpoints[place].socket != start.endpoints[k].socket);
    }
}

/// Connections are found in the same places.
proof fn lemma_same_ids(a: StateView, b: StateView)
    requires
        same_ids(a, b),
    ensures
        forall|id: QuicConnectionId| #[trigger] a.link_place(id) == b.link_place(id),
{
    assert forall|id: QuicConnectionId| #[trigger] a.link_place(id) == b.link_place(id) by {
        let holds = |link: LinkView| link.id == id;
        lemma_first_place(a.links, holds);
        let place = a.link_place(id);
        assert forall|i: int| 0 <= i < place implies !holds(#[trigger] b.links[i]) by {
            assert(!holds(a.links[i]));
        }
        if place < a.links.len() {
            assert(a.links[place].id == b.links[place].id);
        }
        lemma_first_place_is(b.links, holds, place);
    }
}

/// What connections say of themselves depends on their numbers alone.
proof fn lemma_same_survey(
    a: StateView,
    b: StateView,
    handles: Seq<Bound>,
    reports: Seq<Report>,
)
    requires
        same_ids(a, b),
    ensures
        surveyed(a, handles, reports) == surveyed(b, handles, reports),
    decreases handles.len(),
{
    if handles.len() > 0 {
        lemma_same_ids(a, b);
        lemma_same_survey(a, b, handles.drop_last(), reports.drop_last());
        assert(a.link_place(handles.last().id) == b.link_place(handles.last().id));
    }
}

/// What a connection is asked for depends on the numbers alone.
proof fn lemma_same_asked(
    a: StateView,
    b: StateView,
    handles: Seq<Bound>,
    asked: Seq<Seq<Asked>>,
    place: int,
)
    requires
        same_ids(a, b),
    ensures
        asked_at(a, handles, asked, place) == asked_at(b, handles, asked, place),
    decreases handles.len(),
{
    if handles.len() > 0 {
        lemma_same_ids(a, b);
        lemma_same_asked(a, b, handles.drop_last(), asked.drop_last(), place);
        assert(a.link_place(handles.last().id) == b.link_place(handles.last().id));
    }
}

/// The earlier of two times, where `None` is never.
pub open spec fn earliest(a: Option<u64>, b: Option<u64>) -> Option<u64> {
    match (a, b) {
        (Some(x), Some(y)) => if x <= y {
            Some(x)
        } else {
            Some(y)
        },
        (Some(x), None) => Some(x),
        (None, y) => y,
    }
}

/// The earlier of two times, where `None` is never.
pub fn earlier(a: Option<u64>, b: Option<u64>) -> (first: Option<u64>)
    ensures
        first == earliest(a, b),
{
    match (a, b) {
        (Some(x), Some(y)) => if x <= y {
            Some(x)
        } else {
            Some(y)
        },
        (Some(x), None) => Some(x),
        (None, y) => y,
    }
}

/// A request leaves every connection in its place and on its side.
proof fn lemma_settle_keeps_sides(
    state: StateView,
    config: QuicConfig,
    pending: Pending,
    command: Command,
    outcome: OutcomeView,
    output: OutputView,
)
    ensures
        ({
            let after = state.settle(config, pending, command, outcome, output).state;
            &&& after.links.len() == state.links.len()
            &&& forall|i: int|
                0 <= i < state.links.len() ==> (#[trigger] after.links[i]).listener
                    == state.links[i].listener
        }),
{
    match command {
        Command::Start(id) => {
            lemma_first_place(state.links, |link: LinkView| link.id == id);
        },
        Command::Send { id, stream, data, wait } => {
            lemma_first_place(state.links, |link: LinkView| link.id == id);
            let link = state.link(id);
            let waiter = if wait {
                Some(pending)
            } else {
                None
            };
            assert forall|written: int| (#[trigger] link.wrote_first(
                output,
                stream.0,
                data@,
                written,
                waiter,
                config.write_high_water as int,
            )).0.listener == link.listener by {}
            let after = state.settle_send(
                config,
                pending,
                id,
                stream,
                data@,
                wait,
                outcome,
                output,
            ).state;
            assert(after.links == state.links || exists|l: LinkView|
                l.listener == link.listener && after.links == #[trigger] state.links.update(
                    state.link_place(id),
                    l,
                ));
        },
        Command::Finish { id, stream } => {
            lemma_first_place(state.links, |link: LinkView| link.id == id);
        },
        _ => {
            assert(state.settle(config, pending, command, outcome, output).state.links
                == state.links);
        },
    }
}

/// A request that drops an endpoint drops it from the books, and any other
/// leaves as many as there were.
proof fn lemma_settle_drops(
    state: StateView,
    config: QuicConfig,
    pending: Pending,
    command: Command,
    outcome: OutcomeView,
    output: OutputView,
)
    ensures
        ({
            let after = state.settle(config, pending, command, outcome, output);
            match after.dropped {
                None => after.state.endpoints.len() == state.endpoints.len(),
                Some(place) => 0 <= place < state.endpoints.len() && after.state.endpoints.len()
                    == state.endpoints.len() - 1,
            }
        }),
{
    if let Command::CloseListener(id) = command {
        lemma_first_place(
            state.endpoints,
            |endpoint: EndpointView| endpoint.listener == Some(
                Listener { id, owner: pending.source },
            ),
        );
    }
}

} // verus!
