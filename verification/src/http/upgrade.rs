//! How a server's connection becomes a WebSocket.

use crate::http::error::HttpError;
#[allow(unused_imports)]
use crate::http::error::HttpErrorView;
#[allow(unused_imports)]
use crate::http::headers::{header_values, lower_name, roomy, value_byte};
use crate::http::headers::{every_header, put_header};
#[allow(unused_imports)]
use crate::http::origin::optional;
use crate::http::socket::{SocketLimits, SocketOptions};
#[allow(unused_imports)]
use crate::text::trimmed;
use crate::text::{same_text, trim};
use tungstenite::handshake::server::create_response;
use ureq_proto::http::{HeaderMap, Request as HttpRequest};
use vstd::prelude::*;

verus! {

/// How a WebSocket that a server accepts behaves.
#[derive(Debug)]
pub struct WebSocketUpgradeOptions {
    pub websocket: SocketLimits,
    pub input_high_water: usize,
    pub input_low_water: usize,
    pub close_timeout_ms: u64,
    /// The protocol that is spoken, of those that the client offers.
    pub protocol: Option<String>,
}

impl WebSocketUpgradeOptions {
    /// What is wrong with the values.
    pub open spec fn fault(self) -> Option<HttpErrorView> {
        if 0 < self.input_low_water < self.input_high_water && self.close_timeout_ms > 0 {
            None
        } else {
            Some(
                HttpErrorView::Config(
                    "WebSocket 必须满足 0 < input_low_water < input_high_water，且关闭超时非零"@,
                ),
            )
        }
    }

    /// The options with a protocol.
    pub fn with_protocol(self, protocol: String) -> (options: WebSocketUpgradeOptions)
        ensures
            options == (WebSocketUpgradeOptions { protocol: Some(protocol), ..self }),
    {
        WebSocketUpgradeOptions {
            websocket: self.websocket,
            input_high_water: self.input_high_water,
            input_low_water: self.input_low_water,
            close_timeout_ms: self.close_timeout_ms,
            protocol: Some(protocol),
        }
    }

    /// Whether the values can be used.
    pub fn validate(&self) -> (result: Result<(), HttpError>)
        ensures
            result is Ok <==> self.fault() is None,
            result matches Err(error) ==> Some(error@) == self.fault(),
    {
        if self.input_low_water == 0 || self.input_low_water >= self.input_high_water
            || self.close_timeout_ms == 0 {
            return Err(
                HttpError::Config(
                    "WebSocket 必须满足 0 < input_low_water < input_high_water，且关闭超时非零"
                        .to_owned(),
                ),
            );
        }
        Ok(())
    }

    /// What the WebSocket itself needs of the options.
    pub fn socket_options(&self) -> (options: SocketOptions)
        ensures
            optional(options.protocol) == optional(self.protocol),
            options.input_high_water == self.input_high_water,
            options.input_low_water == self.input_low_water,
            options.close_timeout_ms == self.close_timeout_ms,
    {
        SocketOptions {
            protocol: self.protocol.clone(),
            input_high_water: self.input_high_water,
            input_low_water: self.input_low_water,
            close_timeout_ms: self.close_timeout_ms,
        }
    }
}

impl Default for WebSocketUpgradeOptions {
    fn default() -> (options: WebSocketUpgradeOptions)
        ensures
            options == (WebSocketUpgradeOptions {
                websocket: SocketLimits::usual(),
                input_high_water: 262_144,
                input_low_water: 131_072,
                close_timeout_ms: 5_000,
                protocol: None,
            }),
            options.fault() is None,
    {
        WebSocketUpgradeOptions {
            websocket: SocketLimits::default(),
            input_high_water: 262_144,
            input_low_water: 131_072,
            close_timeout_ms: 5_000,
            protocol: None,
        }
    }
}

/// A byte of a value that can be read as text: visible ASCII, or a tab.
pub open spec fn text_byte(byte: u8) -> bool {
    32 <= byte < 127 || byte == 9
}

/// The text of a header value, unless it holds other bytes.
pub open spec fn value_text(bytes: Seq<u8>) -> Option<Seq<char>> {
    if forall|i: int| 0 <= i < bytes.len() ==> text_byte(#[trigger] bytes[i]) {
        Some(bytes.map_values(|b: u8| b as char))
    } else {
        None
    }
}

/// Calls `String::from_utf8` on bytes of ASCII, each of which is the character with its number.
#[verifier::external_body]
fn ascii_text(bytes: Vec<u8>) -> (text: String)
    requires
        forall|i: int| 0 <= i < bytes@.len() ==> #[trigger] bytes@[i] < 128,
    ensures
        text@ == bytes@.map_values(|b: u8| b as char),
{
    String::from_utf8(bytes).unwrap_or_default()
}

/// The text of a header value, unless it holds other bytes.
pub fn read_value(bytes: Vec<u8>) -> (text: Option<String>)
    ensures
        optional(text) == value_text(bytes@),
{
    let mut i: usize = 0;
    while i < bytes.len()
        invariant
            i <= bytes@.len(),
            forall|k: int| 0 <= k < i ==> text_byte(#[trigger] bytes@[k]),
        decreases bytes@.len() - i,
    {
        let byte: u8 = bytes[i];
        if !(32 <= byte && byte < 127 || byte == 9) {
            assert(!text_byte(bytes@[i as int]));
            return None;
        }
        i += 1;
    }
    assert forall|k: int| 0 <= k < bytes@.len() implies #[trigger] bytes@[k] < 128 by {
        assert(text_byte(bytes@[k]));
    }
    Some(ascii_text(bytes))
}

/// Whether the part of a list from one place to another is a whole entry.
pub open spec fn entry(list: Seq<char>, from: int, to: int) -> bool {
    &&& 0 <= from <= to <= list.len()
    &&& from == 0 || list[from - 1] == ','
    &&& to == list.len() || list[to] == ','
    &&& forall|k: int| from <= k < to ==> #[trigger] list[k] != ','
}

/// Whether a list of names, with commas between them, holds a name.
pub open spec fn list_holds(list: Seq<char>, name: Seq<char>) -> bool {
    exists|from: int, to: int|
        #[trigger] entry(list, from, to) && trimmed(list.subrange(from, to)) == name
}

/// Whether a list of names, with commas between them, holds a name.
pub fn holds_name(list: &str, name: &str) -> (holds: bool)
    ensures
        holds == list_holds(list@, name@),
{
    let count: usize = list.unicode_len();
    let mut from: usize = 0;
    let mut to: usize = 0;
    let mut last = false;
    while !last
        invariant
            from <= to <= count == list@.len(),
            !last ==> from == 0 || list@[from - 1] == ',',
            forall|k: int| from <= k < to ==> #[trigger] list@[k] != ',',
            forall|f: int, t: int|
                #[trigger] entry(list@, f, t) && (last || f < from) ==> trimmed(
                    list@.subrange(f, t),
                ) != name@,
        decreases
            count - to + (if last {
                0int
            } else {
                1int
            }),
    {
        if to == count || list.get_char(to) == ',' {
            let ghost held = from as int;
            assert(entry(list@, from as int, to as int));
            if same_text(trim(list.substring_char(from, to)), name) {
                return true;
            }
            assert forall|f: int, t: int|
                #[trigger] entry(list@, f, t) && f <= to implies trimmed(list@.subrange(f, t))
                != name@ by {
                if f > from {
                    assert(list@[f - 1] == ',');
                    assert(f - 1 < to);
                } else if f == from {
                    if t < to {
                        assert(list@[t] == ',');
                    } else if t > to {
                        assert(list@[to as int] != ',');
                    }
                }
            }
            if to == count {
                last = true;
            } else {
                to += 1;
                from = to;
            }
        } else {
            to += 1;
        }
    }
    false
}

/// Whether a client offers a protocol in its headers.
pub open spec fn offers(values: Seq<Seq<u8>>, protocol: Seq<char>) -> bool {
    exists|i: int|
        0 <= i < values.len() && (#[trigger] value_text(values[i]) matches Some(text)
            && list_holds(text, protocol))
}

/// The values under a name.
pub open spec fn values_under(
    values: Map<Seq<char>, Seq<Seq<u8>>>,
    name: Seq<char>,
) -> Seq<Seq<u8>> {
    if values.dom().contains(name) {
        values[name]
    } else {
        Seq::empty()
    }
}

/// The values under a name of a header map.
pub open spec fn values_of(headers: HeaderMap, name: Seq<char>) -> Seq<Seq<u8>> {
    values_under(header_values(headers), name)
}

/// The name of the header with which protocols are offered and chosen.
pub const PROTOCOL: &'static str = "sec-websocket-protocol";

/// What is said where the protocol that was chosen was not offered.
pub open spec fn not_offered() -> HttpErrorView {
    HttpErrorView::Protocol("选中的 WebSocket 子协议不在客户端候选列表中"@)
}

/// A protocol can be chosen only where the client offers it.
pub fn check_protocol(headers: &HeaderMap, protocol: &str) -> (result: Result<(), HttpError>)
    ensures
        result is Ok <==> offers(values_of(*headers, PROTOCOL@), protocol@),
        result matches Err(error) ==> error@ == not_offered(),
{
    proof {
        reveal_strlit("sec-websocket-protocol");
        assert(lower_name(PROTOCOL@));
    }
    let values = every_header(headers, PROTOCOL);
    let ghost all = values_of(*headers, PROTOCOL@);
    let mut values = values;
    let ghost mut done: int = 0;
    assert(values@.map_values(|v: Vec<u8>| v@) =~= all.skip(0));
    while values.len() > 0
        invariant
            all == values_of(*headers, PROTOCOL@),
            0 <= done <= all.len(),
            values@.len() == all.len() - done,
            values@.map_values(|v: Vec<u8>| v@) == all.skip(done),
            forall|i: int|
                0 <= i < done ==> !(#[trigger] value_text(all[i]) matches Some(text) && list_holds(
                    text,
                    protocol@,
                )),
        decreases values@.len(),
    {
        let ghost before = values@.map_values(|v: Vec<u8>| v@);
        let value = values.remove(0);
        assert(before[0] == value@);
        assert(all[done] == value@);
        assert(values@.map_values(|v: Vec<u8>| v@) =~= before.skip(1));
        assert(before.skip(1) =~= all.skip(done + 1));
        if let Some(text) = read_value(value) {
            assert(value_text(all[done]) == Some(text@));
            if holds_name(text.as_str(), protocol) {
                assert(0 <= done < all.len() && value_text(all[done]) == Some(text@));
                assert(offers(all, protocol@));
                return Ok(());
            }
        }
        proof {
            done = done + 1;
        }
    }
    Err(HttpError::Protocol("选中的 WebSocket 子协议不在客户端候选列表中".to_owned()))
}

/// The bytes of a text in ASCII.
pub open spec fn ascii_bytes(text: Seq<char>) -> Seq<u8> {
    text.map_values(|c: char| c as u8)
}

/// A character that stands for a byte of a header value.
pub open spec fn text_char(c: char) -> bool {
    ' ' <= c <= '~' || c == '\t'
}

/// What is left of a text holds no other characters than the text.
proof fn lemma_trimmed_chars(text: Seq<char>)
    requires
        forall|i: int| 0 <= i < text.len() ==> text_char(#[trigger] text[i]),
    ensures
        forall|i: int| 0 <= i < trimmed(text).len() ==> text_char(#[trigger] trimmed(text)[i]),
    decreases text.len(),
{
    if text.len() == 0 {
    } else if crate::text::is_space(text[0]) {
        assert forall|i: int| 0 <= i < text.len() - 1 implies text_char(
            #[trigger] text.drop_first()[i],
        ) by {
            assert(text.drop_first()[i] == text[i + 1]);
        }
        lemma_trimmed_chars(text.drop_first());
        assert(trimmed(text) == trimmed(text.drop_first()));
    } else if crate::text::is_space(text.last()) {
        lemma_trimmed_chars(text.drop_last());
        assert(trimmed(text) == trimmed(text.drop_last()));
    } else {
        assert(trimmed(text) == text);
    }
}

/// A protocol that a client offers can be written into a header.
proof fn lemma_offered_is_text(values: Seq<Seq<u8>>, protocol: Seq<char>)
    requires
        offers(values, protocol),
    ensures
        forall|i: int| 0 <= i < protocol.len() ==> text_char(#[trigger] protocol[i]),
{
    let i = choose|i: int|
        0 <= i < values.len() && (#[trigger] value_text(values[i]) matches Some(text) && list_holds(
            text,
            protocol,
        ));
    let list = value_text(values[i])->0;
    let (from, to) = choose|from: int, to: int|
        #[trigger] entry(list, from, to) && trimmed(list.subrange(from, to)) == protocol;
    let part = list.subrange(from, to);
    assert forall|k: int| 0 <= k < part.len() implies text_char(#[trigger] part[k]) by {
        assert(text_byte(values[i][from + k]));
        assert(part[k] == values[i][from + k] as char);
    }
    lemma_trimmed_chars(part);
}

/// The bytes of a protocol that a client offers.
fn protocol_bytes(protocol: &str) -> (bytes: Vec<u8>)
    requires
        forall|i: int| 0 <= i < protocol@.len() ==> text_char(#[trigger] protocol@[i]),
    ensures
        bytes@ == ascii_bytes(protocol@),
        forall|i: int| 0 <= i < bytes@.len() ==> value_byte(#[trigger] bytes@[i]),
{
    let count: usize = protocol.unicode_len();
    let mut bytes: Vec<u8> = Vec::new();
    let mut i: usize = 0;
    while i < count
        invariant
            i <= count == protocol@.len(),
            bytes@.len() == i,
            forall|k: int| 0 <= k < protocol@.len() ==> text_char(#[trigger] protocol@[k]),
            forall|k: int| 0 <= k < i ==> #[trigger] bytes@[k] == protocol@[k] as u8,
        decreases count - i,
    {
        let c = protocol.get_char(i);
        bytes.push(c as u8);
        i += 1;
    }
    assert(bytes@ =~= ascii_bytes(protocol@));
    assert forall|k: int| 0 <= k < bytes@.len() implies value_byte(#[trigger] bytes@[k]) by {
        assert(text_char(protocol@[k]));
        assert(bytes@[k] as int == protocol@[k] as int);
    }
    bytes
}

/// The values under each name of a request's headers, as [`header_values`] gives those of a map.
pub uninterp spec fn request_values(request: HttpRequest<()>) -> Map<Seq<char>, Seq<Seq<u8>>>;

/// `Request::headers`: the headers of a request.
#[verifier::external_body]
fn request_headers(request: &HttpRequest<()>) -> (headers: &HeaderMap)
    ensures
        header_values(*headers) == request_values(*request),
{
    request.headers()
}

/// The headers with which a request for a WebSocket is accepted, or why it is not.
pub uninterp spec fn acceptance(request: HttpRequest<()>) -> Result<
    Map<Seq<char>, Seq<Seq<u8>>>,
    Seq<char>,
>;

/// What headers hold, where there are some.
pub open spec fn accepted_view(accepted: Result<HeaderMap, String>) -> Result<
    Map<Seq<char>, Seq<Seq<u8>>>,
    Seq<char>,
> {
    match accepted {
        Ok(headers) => Ok(header_values(headers)),
        Err(reason) => Err(reason@),
    }
}

/// `create_response` of the crate's server handshake: the headers of the response that accepts a
/// request for a WebSocket, or the text of the crate's error. Both rest on the request alone. The
/// response has three headers, and its status is 101.
#[verifier::external_body]
fn accepting(request: &HttpRequest<()>) -> (accepted: Result<HeaderMap, String>)
    ensures
        accepted_view(accepted) == acceptance(*request),
        accepted matches Ok(headers) ==> header_values(headers).dom().len() == 3,
{
    match create_response(request) {
        Ok(response) => Ok(response.into_parts().0.headers),
        Err(error) => Err(error.to_string()),
    }
}

/// The headers with which a request for a WebSocket is answered: nothing may be wrong with the
/// options, a protocol has to be one that the client offers in its headers, and the crate has to
/// take the request. Without a protocol the crate's headers are given as they are; with one, a
/// header more names it.
pub open spec fn upgraded(
    offered: Map<Seq<char>, Seq<Seq<u8>>>,
    accepted: Result<Map<Seq<char>, Seq<Seq<u8>>>, Seq<char>>,
    options: WebSocketUpgradeOptions,
) -> Result<Map<Seq<char>, Seq<Seq<u8>>>, HttpErrorView> {
    if options.fault() is Some {
        Err(options.fault()->0)
    } else if options.protocol is Some && !offers(
        values_under(offered, PROTOCOL@),
        options.protocol->0@,
    ) {
        Err(not_offered())
    } else {
        match accepted {
            Err(reason) => Err(HttpErrorView::WebSocket(reason)),
            Ok(values) => match options.protocol {
                None => Ok(values),
                Some(protocol) => Ok(values.insert(PROTOCOL@, seq![ascii_bytes(protocol@)])),
            },
        }
    }
}

/// A WebSocket with a protocol is accepted only where the client offers that protocol, and the
/// response names this one and no other.
pub proof fn law_an_accepted_protocol_was_offered(
    offered: Map<Seq<char>, Seq<Seq<u8>>>,
    accepted: Result<Map<Seq<char>, Seq<Seq<u8>>>, Seq<char>>,
    options: WebSocketUpgradeOptions,
)
    requires
        options.protocol is Some,
        upgraded(offered, accepted, options) is Ok,
    ensures
        offers(values_under(offered, PROTOCOL@), options.protocol->0@),
        values_under(upgraded(offered, accepted, options)->Ok_0, PROTOCOL@) == seq![
            ascii_bytes(options.protocol->0@),
        ],
{
}

/// What headers that were asked for hold, or why there are none.
pub open spec fn answered(response: Result<HeaderMap, HttpError>) -> Result<
    Map<Seq<char>, Seq<Seq<u8>>>,
    HttpErrorView,
> {
    match response {
        Ok(headers) => Ok(header_values(headers)),
        Err(error) => Err(error@),
    }
}

/// The headers of the response to a request for a WebSocket with the given headers, when the
/// crate took it or not. Where its headers take no more, that is the error.
pub fn upgrade_with(
    headers: &HeaderMap,
    accepted: Result<HeaderMap, String>,
    options: &WebSocketUpgradeOptions,
) -> (response: Result<HeaderMap, HttpError>)
    ensures
        ({
            let answer = upgraded(header_values(*headers), accepted_view(accepted), *options);
            ||| answered(response) == answer
            ||| {
                &&& accepted matches Ok(given) && !roomy(given)
                &&& answer is Ok && options.protocol is Some
                &&& response matches Err(error) && error@ == HttpErrorView::Protocol(
                    "header 数量超过上限"@,
                )
            }
        }),
{
    match options.validate() {
        Err(error) => {
            return Err(error);
        },
        Ok(()) => {},
    }
    if let Some(protocol) = &options.protocol {
        match check_protocol(headers, protocol.as_str()) {
            Err(error) => {
                return Err(error);
            },
            Ok(()) => {},
        }
    }
    let mut given = match accepted {
        Ok(given) => given,
        Err(reason) => {
            return Err(HttpError::WebSocket(reason));
        },
    };
    if let Some(protocol) = &options.protocol {
        proof {
            lemma_offered_is_text(values_of(*headers, PROTOCOL@), protocol@);
            reveal_strlit("sec-websocket-protocol");
            assert(lower_name(PROTOCOL@));
        }
        let bytes = protocol_bytes(protocol.as_str());
        if !put_header(&mut given, PROTOCOL, bytes.as_slice()) {
            return Err(HttpError::Protocol("header 数量超过上限".to_owned()));
        }
    }
    Ok(given)
}

/// The headers of the response that accepts a request for a WebSocket. Its status is 101.
pub fn upgrade_response(request: &HttpRequest<()>, options: &WebSocketUpgradeOptions) -> (response:
    Result<HeaderMap, HttpError>)
    ensures
        answered(response) == upgraded(request_values(*request), acceptance(*request), *options),
{
    upgrade_with(request_headers(request), accepting(request), options)
}

} // verus!
