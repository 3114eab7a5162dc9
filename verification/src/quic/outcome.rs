//! What the protocol engine reports, as plain values.

use vstd::prelude::*;

verus! {

/// What came of writing to a stream.
#[derive(Debug)]
pub enum WriteOutcome {
    /// So many bytes were taken.
    Written(usize),
    /// Flow control takes nothing now.
    Blocked,
    /// The stream takes nothing any more.
    Failed(String),
}

/// What a [`WriteOutcome`] says.
#[verifier::ext_equal]
pub enum WriteOutcomeView {
    Written(int),
    Blocked,
    Failed(Seq<char>),
}

impl View for WriteOutcome {
    type V = WriteOutcomeView;

    open spec fn view(&self) -> WriteOutcomeView {
        match *self {
            WriteOutcome::Written(count) => WriteOutcomeView::Written(count as int),
            WriteOutcome::Blocked => WriteOutcomeView::Blocked,
            WriteOutcome::Failed(reason) => WriteOutcomeView::Failed(reason@),
        }
    }
}

/// What came of reading from a stream.
#[derive(Debug)]
pub enum ReadOutcome {
    /// The next bytes.
    Data(Vec<u8>),
    /// The peer has finished sending.
    End,
    /// Nothing has come yet.
    Blocked,
    /// The peer has given the stream up, with this code.
    Reset(u64),
    /// The stream cannot be read.
    Closed,
}

/// What a [`ReadOutcome`] says.
#[verifier::ext_equal]
pub enum ReadOutcomeView {
    Data(Seq<u8>),
    End,
    Blocked,
    Reset(u64),
    Closed,
}

impl View for ReadOutcome {
    type V = ReadOutcomeView;

    open spec fn view(&self) -> ReadOutcomeView {
        match *self {
            ReadOutcome::Data(data) => ReadOutcomeView::Data(data@),
            ReadOutcome::End => ReadOutcomeView::End,
            ReadOutcome::Blocked => ReadOutcomeView::Blocked,
            ReadOutcome::Reset(code) => ReadOutcomeView::Reset(code),
            ReadOutcome::Closed => ReadOutcomeView::Closed,
        }
    }
}

/// What came of a call that either works or gives a reason.
#[derive(Debug)]
pub enum CallOutcome {
    Done,
    Failed(String),
}

/// What a [`CallOutcome`] says.
#[verifier::ext_equal]
pub enum CallOutcomeView {
    Done,
    Failed(Seq<char>),
}

impl View for CallOutcome {
    type V = CallOutcomeView;

    open spec fn view(&self) -> CallOutcomeView {
        match *self {
            CallOutcome::Done => CallOutcomeView::Done,
            CallOutcome::Failed(reason) => CallOutcomeView::Failed(reason@),
        }
    }
}

/// What the engine knows of a connection.
#[derive(Debug)]
pub struct ProtoInfo {
    pub closed: bool,
    pub handshaking: bool,
    pub peer: String,
    pub rtt_nanos: u128,
    pub congestion_window: u64,
    pub send_streams: usize,
}

/// What a [`ProtoInfo`] says.
#[verifier::ext_equal]
pub struct ProtoInfoView {
    pub closed: bool,
    pub handshaking: bool,
    pub peer: Seq<char>,
    pub rtt_nanos: u128,
    pub congestion_window: u64,
    pub send_streams: usize,
}

impl View for ProtoInfo {
    type V = ProtoInfoView;

    open spec fn view(&self) -> ProtoInfoView {
        ProtoInfoView {
            closed: self.closed,
            handshaking: self.handshaking,
            peer: self.peer@,
            rtt_nanos: self.rtt_nanos,
            congestion_window: self.congestion_window,
            send_streams: self.send_streams,
        }
    }
}

} // verus!
