//! Requests to the socket layer and its answers.

use crate::net::event::{SocketId, SocketInfo};
#[allow(unused_imports)]
use crate::net::event::SocketInfoView;
use vstd::prelude::*;

verus! {

/// A request to the socket layer.
#[derive(Debug)]
pub enum Command {
    /// Bind a listener. It accepts nothing until it is started.
    Listen { addr: String },
    /// Connect, and answer when that has worked or failed.
    Connect { addr: String },
    /// Connect within a time.
    ConnectWithTimeout { addr: String, timeout_ms: u64 },
    /// Begin or go on taking in, on behalf of whoever asks.
    Start(SocketId),
    /// Take nothing in for now.
    Pause(SocketId),
    /// Write bytes, before or after what else waits.
    Send { id: SocketId, data: Vec<u8>, high: bool },
    /// Write bytes, and answer when not too many wait.
    SendWait { id: SocketId, data: Vec<u8>, high: bool },
    /// Close when what waits is written.
    Close(SocketId),
    /// Close now.
    Shutdown(SocketId),
    /// Send small pieces at once, or not.
    NoDelay { id: SocketId, on: bool },
    /// Open a datagram socket.
    Udp { bind: Option<String> },
    /// Open a datagram socket that suits a peer and remember the peer.
    UdpForPeer { addr: String },
    /// Remember a peer.
    UdpConnect { id: SocketId, addr: String },
    /// Send a datagram, to the remembered peer where no other is given.
    UdpSend { id: SocketId, to: Option<String>, data: Vec<u8> },
    /// Send a datagram, and answer when not too many bytes wait.
    UdpSendWait { id: SocketId, to: Option<String>, data: Vec<u8> },
    /// Describe a socket.
    Info(SocketId),
    /// Describe all sockets.
    Netstat,
    /// The time to connect is over.
    ConnectTimeoutElapsed(SocketId),
}

/// What the socket layer answers.
#[derive(Debug)]
pub enum Answer {
    Id(SocketId),
    Info(SocketInfo),
    Infos(Vec<SocketInfo>),
    Done,
    Failed(String),
}

/// What an [`Answer`] says.
#[verifier::ext_equal]
pub enum AnswerView {
    Id(SocketId),
    Info(SocketInfoView),
    Infos(Seq<SocketInfoView>),
    Done,
    Failed(Seq<char>),
}

impl View for Answer {
    type V = AnswerView;

    open spec fn view(&self) -> AnswerView {
        match *self {
            Answer::Id(id) => AnswerView::Id(id),
            Answer::Info(info) => AnswerView::Info(info@),
            Answer::Infos(infos) => AnswerView::Infos(infos@.map_values(|i: SocketInfo| i@)),
            Answer::Done => AnswerView::Done,
            Answer::Failed(reason) => AnswerView::Failed(reason@),
        }
    }
}

/// Why a request did not get the answer it asked for.
#[derive(Debug)]
pub enum Refusal {
    /// The request was refused, with this reason.
    Failed(String),
    /// The answer does not fit the request.
    Unexpected(Answer),
}

impl Answer {
    /// The answer to a request that is only done.
    pub fn done(self) -> (result: Result<(), Refusal>)
        ensures
            result == (match self {
                Answer::Done => Ok::<(), Refusal>(()),
                Answer::Failed(reason) => Err(Refusal::Failed(reason)),
                other => Err(Refusal::Unexpected(other)),
            }),
    {
        match self {
            Answer::Done => Ok(()),
            Answer::Failed(reason) => Err(Refusal::Failed(reason)),
            other => Err(Refusal::Unexpected(other)),
        }
    }

    /// The answer to a request for a socket.
    pub fn id(self) -> (result: Result<SocketId, Refusal>)
        ensures
            result == (match self {
                Answer::Id(value) => Ok::<SocketId, Refusal>(value),
                Answer::Failed(reason) => Err(Refusal::Failed(reason)),
                other => Err(Refusal::Unexpected(other)),
            }),
    {
        match self {
            Answer::Id(value) => Ok(value),
            Answer::Failed(reason) => Err(Refusal::Failed(reason)),
            other => Err(Refusal::Unexpected(other)),
        }
    }

    /// The answer to a question about one socket.
    pub fn info(self) -> (result: Result<SocketInfo, Refusal>)
        ensures
            result == (match self {
                Answer::Info(value) => Ok::<SocketInfo, Refusal>(value),
                Answer::Failed(reason) => Err(Refusal::Failed(reason)),
                other => Err(Refusal::Unexpected(other)),
            }),
    {
        match self {
            Answer::Info(value) => Ok(value),
            Answer::Failed(reason) => Err(Refusal::Failed(reason)),
            other => Err(Refusal::Unexpected(other)),
        }
    }

    /// The answer to a question about all sockets.
    pub fn infos(self) -> (result: Result<Vec<SocketInfo>, Refusal>)
        ensures
            result == (match self {
                Answer::Infos(value) => Ok::<Vec<SocketInfo>, Refusal>(value),
                Answer::Failed(reason) => Err(Refusal::Failed(reason)),
                other => Err(Refusal::Unexpected(other)),
            }),
    {
        match self {
            Answer::Infos(value) => Ok(value),
            Answer::Failed(reason) => Err(Refusal::Failed(reason)),
            other => Err(Refusal::Unexpected(other)),
        }
    }
}

} // verus!
