//! Requests to the QUIC service and its answers.

use crate::quic::config::QuicTransportOptions;
use crate::quic::event::{QuicConnectionId, QuicInfo, QuicListenerId, QuicStreamId};
#[allow(unused_imports)]
use crate::quic::event::InfoView;
use quinn_proto::VarInt;
use vstd::prelude::*;

verus! {

/// Where and how to connect.
#[derive(Debug)]
pub struct QuicClientOptions {
    pub address: String,
    pub bind: Option<String>,
    pub server_name: String,
    pub transport: QuicTransportOptions,
    pub connect_timeout_ms: Option<u64>,
}

impl QuicClientOptions {
    /// Options with the usual transport, no address of one's own and the
    /// service's timeout.
    pub fn new(address: String, server_name: String) -> (options: QuicClientOptions)
        ensures
            options.address == address,
            options.server_name == server_name,
            options.bind is None,
            options.connect_timeout_ms is None,
            options.transport == QuicTransportOptions::usual(),
    {
        QuicClientOptions {
            address,
            bind: None,
            server_name,
            transport: QuicTransportOptions::default(),
            connect_timeout_ms: None,
        }
    }

    /// The same options with an address to bind.
    pub fn with_bind(self, bind: String) -> (options: QuicClientOptions)
        ensures
            options == (QuicClientOptions { bind: Some(bind), ..self }),
    {
        let mut options = self;
        options.bind = Some(bind);
        options
    }

    /// The same options with another transport.
    pub fn with_transport(self, transport: QuicTransportOptions) -> (options: QuicClientOptions)
        ensures
            options == (QuicClientOptions { transport, ..self }),
    {
        let mut options = self;
        options.transport = transport;
        options
    }

    /// The same options with a timeout of their own.
    pub fn with_connect_timeout_ms(self, timeout_ms: u64) -> (options: QuicClientOptions)
        ensures
            options == (QuicClientOptions { connect_timeout_ms: Some(timeout_ms), ..self }),
    {
        let mut options = self;
        options.connect_timeout_ms = Some(timeout_ms);
        options
    }
}

/// Where and how to listen.
#[derive(Debug)]
pub struct QuicServerOptions {
    pub address: String,
    pub transport: QuicTransportOptions,
}

impl QuicServerOptions {
    /// Options with the usual transport.
    pub fn new(address: String) -> (options: QuicServerOptions)
        ensures
            options.address == address,
            options.transport == QuicTransportOptions::usual(),
    {
        QuicServerOptions { address, transport: QuicTransportOptions::default() }
    }

    /// The same options with another transport.
    pub fn with_transport(self, transport: QuicTransportOptions) -> (options: QuicServerOptions)
        ensures
            options == (QuicServerOptions { transport, ..self }),
    {
        let mut options = self;
        options.transport = transport;
        options
    }
}

/// A request to the QUIC service. The last two are the service's own timers.
#[derive(Debug)]
pub enum Command {
    Listen(QuicServerOptions),
    ListenerLocalAddr(QuicListenerId),
    CloseListener(QuicListenerId),
    Connect(QuicClientOptions),
    Start(QuicConnectionId),
    OpenBi(QuicConnectionId),
    OpenUni(QuicConnectionId),
    Send { id: QuicConnectionId, stream: QuicStreamId, data: Vec<u8>, wait: bool },
    Finish { id: QuicConnectionId, stream: QuicStreamId },
    Reset { id: QuicConnectionId, stream: QuicStreamId, error_code: u64 },
    Stop { id: QuicConnectionId, stream: QuicStreamId, error_code: u64 },
    SendDatagram { id: QuicConnectionId, data: Vec<u8> },
    Close { id: QuicConnectionId, error_code: u64, reason: Vec<u8> },
    Shutdown(QuicConnectionId),
    Info(QuicConnectionId),
    Netstat,
    Tick { socket: u32, generation: u64 },
    ConnectTimeout(QuicConnectionId),
}

/// What the QUIC service answers.
#[derive(Debug)]
pub enum Answer {
    Listener(QuicListenerId),
    LocalAddr(String),
    Connection(QuicConnectionId),
    Stream(QuicStreamId),
    Info(QuicInfo),
    Infos(Vec<QuicInfo>),
    Done,
    Failed(String),
}

/// What an [`Answer`] says.
#[verifier::ext_equal]
pub enum AnswerView {
    Listener(QuicListenerId),
    LocalAddr(Seq<char>),
    Connection(QuicConnectionId),
    Stream(QuicStreamId),
    Info(InfoView),
    Infos(Seq<InfoView>),
    Done,
    Failed(Seq<char>),
}

impl View for Answer {
    type V = AnswerView;

    open spec fn view(&self) -> AnswerView {
        match *self {
            Answer::Listener(id) => AnswerView::Listener(id),
            Answer::LocalAddr(address) => AnswerView::LocalAddr(address@),
            Answer::Connection(id) => AnswerView::Connection(id),
            Answer::Stream(id) => AnswerView::Stream(id),
            Answer::Info(info) => AnswerView::Info(info@),
            Answer::Infos(infos) => AnswerView::Infos(infos@.map_values(|info: QuicInfo| info@)),
            Answer::Done => AnswerView::Done,
            Answer::Failed(reason) => AnswerView::Failed(reason@),
        }
    }
}

/// Why a request did not get the answer it asked for.
#[derive(Debug)]
pub enum Refusal {
    /// The request was refused, with this reason.
    Failed(String),
    /// The answer does not fit the request.
    Unexpected(Answer),
}

impl Answer {
    /// The answer to a request that is only done.
    pub fn done(self) -> (result: Result<(), Refusal>)
        ensures
            result == (match self {
                Answer::Done => Ok::<(), Refusal>(()),
                Answer::Failed(reason) => Err(Refusal::Failed(reason)),
                other => Err(Refusal::Unexpected(other)),
            }),
    {
        match self {
            Answer::Done => Ok(()),
            Answer::Failed(reason) => Err(Refusal::Failed(reason)),
            other => Err(Refusal::Unexpected(other)),
        }
    }

    /// The answer to a request for a listener.
    pub fn listener(self) -> (result: Result<QuicListenerId, Refusal>)
        ensures
            result == (match self {
                Answer::Listener(value) => Ok::<QuicListenerId, Refusal>(value),
                Answer::Failed(reason) => Err(Refusal::Failed(reason)),
                other => Err(Refusal::Unexpected(other)),
            }),
    {
        match self {
            Answer::Listener(value) => Ok(value),
            Answer::Failed(reason) => Err(Refusal::Failed(reason)),
            other => Err(Refusal::Unexpected(other)),
        }
    }

    /// The answer to a request for an address.
    pub fn local_addr(self) -> (result: Result<String, Refusal>)
        ensures
            result == (match self {
                Answer::LocalAddr(value) => Ok::<String, Refusal>(value),
                Answer::Failed(reason) => Err(Refusal::Failed(reason)),
                other => Err(Refusal::Unexpected(other)),
            }),
    {
        match self {
            Answer::LocalAddr(value) => Ok(value),
            Answer::Failed(reason) => Err(Refusal::Failed(reason)),
            other => Err(Refusal::Unexpected(other)),
        }
    }

    /// The answer to a request for a connection.
    pub fn connection(self) -> (result: Result<QuicConnectionId, Refusal>)
        ensures
            result == (match self {
                Answer::Connection(value) => Ok::<QuicConnectionId, Refusal>(value),
                Answer::Failed(reason) => Err(Refusal::Failed(reason)),
                other => Err(Refusal::Unexpected(other)),
            }),
    {
        match self {
            Answer::Connection(value) => Ok(value),
            Answer::Failed(reason) => Err(Refusal::Failed(reason)),
            other => Err(Refusal::Unexpected(other)),
        }
    }

    /// The answer to a request for a stream.
    pub fn stream(self) -> (result: Result<QuicStreamId, Refusal>)
        ensures
            result == (match self {
                Answer::Stream(value) => Ok::<QuicStreamId, Refusal>(value),
                Answer::Failed(reason) => Err(Refusal::Failed(reason)),
                other => Err(Refusal::Unexpected(other)),
            }),
    {
        match self {
            Answer::Stream(value) => Ok(value),
            Answer::Failed(reason) => Err(Refusal::Failed(reason)),
            other => Err(Refusal::Unexpected(other)),
        }
    }

    /// The answer to a question about one connection.
    pub fn info(self) -> (result: Result<QuicInfo, Refusal>)
        ensures
            result == (match self {
                Answer::Info(value) => Ok::<QuicInfo, Refusal>(value),
                Answer::Failed(reason) => Err(Refusal::Failed(reason)),
                other => Err(Refusal::Unexpected(other)),
            }),
    {
        match self {
            Answer::Info(value) => Ok(value),
            Answer::Failed(reason) => Err(Refusal::Failed(reason)),
            other => Err(Refusal::Unexpected(other)),
        }
    }

    /// The answer to a question about all connections.
    pub fn infos(self) -> (result: Result<Vec<QuicInfo>, Refusal>)
        ensures
            result == (match self {
                Answer::Infos(value) => Ok::<Vec<QuicInfo>, Refusal>(value),
                Answer::Failed(reason) => Err(Refusal::Failed(reason)),
                other => Err(Refusal::Unexpected(other)),
            }),
    {
        match self {
            Answer::Infos(value) => Ok(value),
            Answer::Failed(reason) => Err(Refusal::Failed(reason)),
            other => Err(Refusal::Unexpected(other)),
        }
    }
}

/// Numbers below this bound fit a variable length integer of QUIC.
pub const VARINT_BOUND: u64 = 0x4000_0000_0000_0000;

/// `VarInt::from_u64`: it succeeds for numbers of at most 62 bits.
#[verifier::external_body]
fn varint_fits(value: u64) -> (fits: bool)
    ensures
        fits == (value < VARINT_BOUND),
{
    VarInt::from_u64(value).is_ok()
}

/// An application error code, if it is one.
pub fn checked_error_code(error_code: u64) -> (result: Result<u64, String>)
    ensures
        match result {
            Ok(code) => code == error_code && error_code < VARINT_BOUND,
            Err(reason) => error_code >= VARINT_BOUND && reason@ == "QUIC error code 超出范围"@,
        },
{
    if varint_fits(error_code) {
        Ok(error_code)
    } else {
        Err("QUIC error code 超出范围".to_owned())
    }
}

/// A stream number, if it is one.
pub fn proto_stream_id(id: QuicStreamId) -> (result: Result<u64, String>)
    ensures
        match result {
            Ok(number) => number == id.0 && id.0 < VARINT_BOUND,
            Err(reason) => id.0 >= VARINT_BOUND && reason@ == id.name()
                + " 超出 QUIC stream id 范围"@,
        },
{
    if varint_fits(id.0) {
        Ok(id.0)
    } else {
        let mut reason = id.text();
        reason.append(" 超出 QUIC stream id 范围");
        Err(reason)
    }
}

} // verus!
