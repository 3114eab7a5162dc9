//! What holds of WebSockets as a whole: where they are opened to, in which order messages come, and
//! what comes of a handshake. Where requests go is said here too.

#[allow(unused_imports)]
use crate::http::error::HttpErrorView;
use crate::http::handshake::{HandshakeResponse, Handshaking};
#[allow(unused_imports)]
use crate::http::origin::{address_of, OriginView, UriPartsView};
#[allow(unused_imports)]
use crate::http::socket::{whole_read, Handed, SocketStep, SocketView};
use crate::http::transport::TransportId;
#[allow(unused_imports)]
use crate::http::upgrade::values_of;
#[allow(unused_imports)]
use crate::http::websocket::{WebSocketsView, EXTENSIONS};
#[allow(unused_imports)]
use crate::text::{decimal, law_digits_read_back, lowered};
use tungstenite::protocol::Message;
use vstd::prelude::*;

verus! {

/// A WebSocket is opened to the host of its address, at the port that the address names; where it
/// names none, at 443 if it is secure and at 80 if it is not. It is secure exactly where the
/// address says `wss`.
pub proof fn law_a_socket_goes_where_its_address_says(parts: UriPartsView)
    requires
        parts.host is Some,
        !parts.host->0.contains(':'),
        parts.scheme == Some("ws"@) || parts.scheme == Some("wss"@),
    ensures
        parts.socket_target() is Ok,
        parts.socket_target()->Ok_0.0 <==> parts.scheme == Some("wss"@),
        parts.socket_target()->Ok_0.1 == parts.host->0,
        parts.port matches Some(port) ==> parts.socket_target()->Ok_0.2 == parts.host->0 + ":"@
            + decimal(port as nat),
        parts.port is None && parts.scheme == Some("wss"@) ==> parts.socket_target()->Ok_0.2
            == parts.host->0 + ":"@ + decimal(443),
        parts.port is None && parts.scheme == Some("ws"@) ==> parts.socket_target()->Ok_0.2
            == parts.host->0 + ":"@ + decimal(80),
{
    lemma_schemes();
}

/// The same of a host that is written with colons, which stands in brackets.
pub proof fn law_a_socket_goes_to_a_host_with_colons(parts: UriPartsView)
    requires
        parts.host is Some,
        parts.host->0.contains(':'),
        parts.scheme == Some("ws"@) || parts.scheme == Some("wss"@),
    ensures
        parts.socket_target() is Ok,
        parts.socket_target()->Ok_0.0 <==> parts.scheme == Some("wss"@),
        parts.socket_target()->Ok_0.1 == parts.host->0,
        parts.port matches Some(port) ==> parts.socket_target()->Ok_0.2 == "["@ + parts.host->0
            + "]:"@ + decimal(port as nat),
        parts.port is None && parts.scheme == Some("wss"@) ==> parts.socket_target()->Ok_0.2
            == "["@ + parts.host->0 + "]:"@ + decimal(443),
        parts.port is None && parts.scheme == Some("ws"@) ==> parts.socket_target()->Ok_0.2
            == "["@ + parts.host->0 + "]:"@ + decimal(80),
{
    lemma_schemes();
}

proof fn lemma_schemes()
    ensures
        "ws"@ != "wss"@,
        "http"@ != "https"@,
{
    reveal_strlit("ws");
    reveal_strlit("wss");
    reveal_strlit("http");
    reveal_strlit("https");
    assert("ws"@.len() != "wss"@.len());
    assert("http"@.len() != "https"@.len());
}

/// An address without a host or a scheme, or with any other scheme, is refused with the reason.
pub proof fn law_other_addresses_are_refused(parts: UriPartsView)
    ensures
        parts.socket_target() is Ok <==> parts.host is Some && (parts.scheme == Some("ws"@)
            || parts.scheme == Some("wss"@)),
        parts.origin() is Ok <==> parts.host is Some && (parts.scheme == Some("http"@)
            || parts.scheme == Some("https"@)),
        parts.host is Some && parts.scheme is Some && parts.socket_target() is Err
            ==> parts.socket_target()->Err_0 == HttpErrorView::UnsupportedScheme(parts.scheme->0),
        parts.scheme is Some && parts.scheme != Some("http"@) && parts.scheme != Some("https"@)
            ==> parts.origin() == Err::<OriginView, HttpErrorView>(
            HttpErrorView::UnsupportedScheme(parts.scheme->0),
        ),
{
}

/// Two ports of one host are two addresses.
pub proof fn law_ports_make_addresses_differ(host: Seq<char>, first: u16, second: u16)
    requires
        address_of(host, first) == address_of(host, second),
    ensures
        first == second,
{
    let head = if host.contains(':') {
        "["@ + host + "]:"@
    } else {
        host + ":"@
    };
    assert(address_of(host, first).skip(head.len() as int) =~= decimal(first as nat));
    assert(address_of(host, second).skip(head.len() as int) =~= decimal(second as nat));
    law_digits_read_back(first as nat, 10);
    law_digits_read_back(second as nat, 10);
}

/// A request goes to the host of its address in lower case, at the port that the address names;
/// where it names none, at 443 if it is secure and at 80 if it is not. It is secure exactly where
/// the address says `https`.
pub proof fn law_a_request_goes_where_its_address_says(parts: UriPartsView)
    requires
        parts.host is Some,
        parts.scheme == Some("http"@) || parts.scheme == Some("https"@),
    ensures
        parts.origin() is Ok,
        parts.origin()->Ok_0.secure <==> parts.scheme == Some("https"@),
        parts.origin()->Ok_0.host == lowered(parts.host->0),
        parts.port matches Some(port) ==> parts.origin()->Ok_0.port == port,
        parts.port is None && parts.scheme == Some("https"@) ==> parts.origin()->Ok_0.port == 443,
        parts.port is None && parts.scheme == Some("http"@) ==> parts.origin()->Ok_0.port == 80,
        !parts.origin()->Ok_0.host.contains(':') ==> parts.origin()->Ok_0.address()
            == parts.origin()->Ok_0.host + ":"@ + decimal(parts.origin()->Ok_0.port as nat),
{
    lemma_schemes();
}

/// Letters keep their places when a text is made lower-case, and no capital letter of ASCII is
/// left.
pub proof fn law_lower_case_has_no_capitals(text: Seq<char>)
    ensures
        lowered(text).len() == text.len(),
        forall|i: int|
            0 <= i < text.len() ==> !('A' <= #[trigger] lowered(text)[i] <= 'Z'),
        forall|i: int|
            0 <= i < text.len() && !('A' <= #[trigger] text[i] <= 'Z') ==> lowered(text)[i]
                == text[i],
        forall|i: int|
            0 <= i < text.len() && 'A' <= #[trigger] text[i] <= 'Z' ==> lowered(text)[i] as int
                == text[i] as int + 32,
{
}

/// Whoever asks for a message gets the first of those that wait, and those that are left keep their
/// order; without a message an error is told, then the end, and otherwise it has to be waited for.
pub proof fn law_messages_are_handed_out_in_order(socket: SocketView, low: usize)
    ensures
        socket.messages.len() > 0 ==> socket.handed() == Handed::Message(socket.messages[0].0)
            && seq![socket.messages[0]] + socket.asked(low).messages == socket.messages,
        socket.messages.len() > 0 ==> socket.asked(low).error == socket.error && socket.asked(
            low,
        ).ended == socket.ended,
        socket.messages.len() == 0 ==> socket.asked(low).messages.len() == 0,
        socket.messages.len() == 0 && socket.error is Some ==> socket.handed() == Handed::Failed(
            socket.error->0,
        ) && socket.asked(low).error is None,
        socket.messages.len() == 0 && socket.error is None && socket.ended ==> socket.handed()
            == Handed::End && socket.asked(low) == socket,
        socket.messages.len() == 0 && socket.error is None && !socket.ended ==> socket.handed()
            == Handed::Wait && socket.asked(low).waiting,
{
    if socket.messages.len() > 0 {
        assert(seq![socket.messages[0]] + socket.asked(low).messages =~= socket.messages);
    }
}

/// The messages among several steps of reading.
pub open spec fn messages_in(steps: Seq<SocketStep>) -> Seq<Message>
    decreases steps.len(),
{
    if steps.len() == 0 {
        Seq::empty()
    } else {
        match steps.last() {
            SocketStep::Message(message, size) => messages_in(steps.drop_last()).push(message),
            _ => messages_in(steps.drop_last()),
        }
    }
}

/// The messages that wait.
pub open spec fn waiting_messages(socket: SocketView) -> Seq<Message> {
    socket.messages.map_values(|m: (Message, int)| m.0)
}

/// What is read waits behind what was read before, in the order in which it was read, and nothing
/// is lost; only a close or a failure ends a WebSocket, and a failure is kept to be told.
pub proof fn law_messages_wait_in_order(socket: SocketView, steps: Seq<SocketStep>, high: usize)
    ensures
        waiting_messages(socket.run(steps)) == waiting_messages(socket) + messages_in(steps),
        waiting_messages(socket.fed(steps, high)) == waiting_messages(socket) + messages_in(steps),
        !socket.fed(steps, high).waiting,
        whole_read(steps) && !socket.ended && socket.fed(steps, high).ended ==> steps.last()
            is Closed || steps.last() is Failed,
        whole_read(steps) && steps.len() < u64::MAX && (steps.last() is Closed || steps.last()
            is Failed) ==> socket.fed(steps, high).ended,
        whole_read(steps) && steps.len() < u64::MAX ==> (steps.last() matches SocketStep::Failed(
            reason,
        ) ==> socket.fed(steps, high).error == Some(HttpErrorView::WebSocket(reason))),
    decreases steps.len(),
{
    if steps.len() > 0 {
        let front = steps.drop_last();
        law_messages_wait_in_order(socket, front, high);
        let earlier = socket.run(front);
        if let SocketStep::Message(message, size) = steps.last() {
            assert(waiting_messages(earlier.next(steps.last())) =~= waiting_messages(earlier).push(
                message,
            ));
            assert((waiting_messages(socket) + messages_in(front)).push(message)
                =~= waiting_messages(socket) + messages_in(front).push(message));
        } else {
            assert(waiting_messages(earlier.next(steps.last())) == waiting_messages(earlier));
        }
        assert(waiting_messages(socket.run(steps)) =~= waiting_messages(socket) + messages_in(
            steps,
        ));
        if whole_read(steps) {
            lemma_only_messages(socket, front, steps);
        }
    } else {
        assert(waiting_messages(socket.run(steps)) =~= waiting_messages(socket) + messages_in(
            steps,
        ));
    }
    assert(waiting_messages(socket.fed(steps, high)) == waiting_messages(socket.run(steps)));
}

/// Messages alone end nothing.
proof fn lemma_only_messages(socket: SocketView, front: Seq<SocketStep>, steps: Seq<SocketStep>)
    requires
        front.len() < steps.len(),
        front == steps.take(front.len() as int),
        whole_read(steps),
    ensures
        socket.run(front).ended == socket.ended,
        socket.run(front).error == socket.error,
    decreases front.len(),
{
    if front.len() > 0 {
        assert(front.last() == steps[front.len() - 1]);
        assert(front.drop_last() =~= steps.take(front.len() - 1));
        lemma_only_messages(socket, front.drop_last(), steps);
    }
}

/// A connection that goes ends its WebSocket and keeps the messages that came; why it went is told
/// after them.
pub proof fn law_a_lost_connection_ends_its_socket(socket: SocketView, reason: Option<Seq<char>>)
    ensures
        socket.closed(reason).ended,
        socket.closed(reason).messages == socket.messages,
        !socket.closed(reason).waiting,
        reason matches Some(reason) ==> socket.closed(Some(reason)).error == Some(
            HttpErrorView::Transport(reason),
        ),
        reason is None ==> socket.closed(reason).error == socket.error,
{
}

/// A WebSocket is asked to receive nothing only when too much waits, and to receive again when
/// little does.
pub proof fn law_a_full_socket_pauses(
    socket: SocketView,
    steps: Seq<SocketStep>,
    low: usize,
    high: usize,
)
    ensures
        socket.run(steps).to_pause(high) <==> !socket.run(steps).paused && socket.run(
            steps,
        ).queued_bytes >= high,
        socket.run(steps).to_pause(high) ==> socket.fed(steps, high).paused,
        socket.messages.len() > 0 && socket.messages[0].1 >= 0 && socket.queued_bytes
            >= socket.messages[0].1 ==> socket.asked(low).queued_bytes == socket.queued_bytes
            - socket.messages[0].1,
        socket.messages.len() > 0 && socket.asked(low).queued_bytes <= low ==> !socket.asked(
            low,
        ).paused,
        socket.messages.len() > 0 && socket.asked(low).queued_bytes > low ==> socket.asked(
            low,
        ).paused == socket.paused,
{
}

/// A handshake that begins is under way under a number of its own, open for nobody yet, and touches
/// no other.
pub proof fn law_a_handshake_is_under_way(
    client: WebSocketsView,
    transport: TransportId,
    handshake: Handshaking,
    other: TransportId,
)
    requires
        other.number() != transport.number(),
        client.next_generation < u64::MAX,
    ensures
        ({
            let after = client.began(transport, handshake);
            &&& after.opens(transport)
            &&& after.at(transport).result is None
            &&& after.at(transport).handshake == Some(handshake)
            &&& after.overdue(transport, after.next_generation)
            &&& after.next_generation == client.next_generation + 1
            &&& after.connected == client.connected
            &&& after.opens(other) == client.opens(other)
            &&& client.opens(other) ==> after.at(other) == client.at(other)
        }),
{
}

/// A handshake that succeeded opens a WebSocket under a number of its own, unless the server chose
/// an extension or the transport is gone: then none is open, and whoever opened it is told why. A
/// handshake has one result, and no other WebSocket is touched.
pub proof fn law_a_finished_handshake_opens_one_socket(
    client: WebSocketsView,
    transport: TransportId,
    response: HandshakeResponse,
    reachable: bool,
    other: TransportId,
)
    requires
        client.opens(transport),
        other.number() != transport.number(),
        client.next_id < u64::MAX,
    ensures
        ({
            let after = client.shaken(transport, response, reachable);
            let fine = reachable && values_of(response.headers, EXTENSIONS@).len() == 0;
            &&& fine <==> client.refusal(response, reachable) is None
            &&& fine ==> {
                &&& after.open_on(transport)
                &&& after.connected[transport.number()].0 == client.next_id + 1
                &&& after.at(transport).result == Some::<Result<HandshakeResponse, HttpErrorView>>(
                    Ok(response),
                )
            }
            &&& !fine ==> {
                &&& after.connected == client.connected
                &&& after.at(transport).result is Some
                &&& after.at(transport).result->0 is Err
            }
            &&& !after.at(transport).waiting
            &&& after.opens(other) == client.opens(other)
            &&& client.opens(other) ==> after.at(other) == client.at(other)
            &&& after.open_on(other) == client.open_on(other)
            &&& client.open_on(other) ==> after.connected[other.number()]
                == client.connected[other.number()]
        }),
{
}

/// A transport that goes takes its WebSocket along, a handshake on it has failed with the reason,
/// and whoever waits for it is told; no other is touched.
pub proof fn law_a_lost_transport_ends_its_handshake(
    client: WebSocketsView,
    transport: TransportId,
    reason: Seq<char>,
    other: TransportId,
)
    requires
        other.number() != transport.number(),
    ensures
        ({
            let after = client.closed(transport, Some(reason));
            &&& !after.open_on(transport)
            &&& after.opens(transport) == client.opens(transport)
            &&& client.opens(transport) ==> after.at(transport).result == Some::<
                Result<HandshakeResponse, HttpErrorView>,
            >(Err(HttpErrorView::Transport(reason))) && !after.at(transport).waiting
            &&& client.awaited(transport) <==> client.opens(transport) && client.at(
                transport,
            ).waiting
            &&& after.open_on(other) == client.open_on(other)
            &&& after.opens(other) == client.opens(other)
            &&& client.opens(other) ==> after.at(other) == client.at(other)
        }),
{
}

/// Only a handshake that is still under way, under the number it began with, is timed out.
pub proof fn law_only_an_open_handshake_times_out(
    client: WebSocketsView,
    transport: TransportId,
    generation: u64,
)
    ensures
        client.overdue(transport, generation) <==> client.opens(transport) && client.at(
            transport,
        ).generation == generation && client.at(transport).result is None,
{
}

} // verus!
