//! Errors of the HTTP services.

#[allow(unused_imports)]
use crate::text::decimal;
use crate::text::push_decimal;
use vstd::prelude::*;

verus! {

/// What went wrong.
#[derive(Debug)]
#[non_exhaustive]
#[allow(inconsistent_fields)]
pub enum HttpError {
    /// A configuration value is not acceptable.
    Config(String),
    /// The address cannot be used.
    InvalidUri(String),
    /// The address names a scheme that is not served.
    UnsupportedScheme(String),
    /// One side broke the protocol.
    Protocol(String),
    /// The transport failed.
    Transport(String),
    /// The secure transport failed.
    Tls(String),
    /// A stage took too long.
    Timeout(&'static str),
    /// A body has another length than was announced.
    BodyLengthMismatch { expected: u64, actual: u64 },
    /// The body is closed.
    BodyClosed,
    /// The final response came before the request's body was wanted.
    RequestBodyRejected,
    /// More bytes than are taken at once.
    BackpressureLimit { actual: usize, limit: usize },
    /// The operation was given up.
    Canceled,
    /// The client service cannot be reached.
    ServiceUnavailable(String),
    /// The operation is not possible now.
    InvalidState(&'static str),
    /// A WebSocket failed.
    WebSocket(String),
}

/// What an [`HttpError`] says.
#[verifier::ext_equal]
#[allow(inconsistent_fields)]
pub enum HttpErrorView {
    Config(Seq<char>),
    InvalidUri(Seq<char>),
    UnsupportedScheme(Seq<char>),
    Protocol(Seq<char>),
    Transport(Seq<char>),
    Tls(Seq<char>),
    Timeout(Seq<char>),
    BodyLengthMismatch { expected: u64, actual: u64 },
    BodyClosed,
    RequestBodyRejected,
    BackpressureLimit { actual: int, limit: int },
    Canceled,
    ServiceUnavailable(Seq<char>),
    InvalidState(Seq<char>),
    WebSocket(Seq<char>),
}

impl View for HttpError {
    type V = HttpErrorView;

    open spec fn view(&self) -> HttpErrorView {
        match *self {
            HttpError::Config(text) => HttpErrorView::Config(text@),
            HttpError::InvalidUri(text) => HttpErrorView::InvalidUri(text@),
            HttpError::UnsupportedScheme(text) => HttpErrorView::UnsupportedScheme(text@),
            HttpError::Protocol(text) => HttpErrorView::Protocol(text@),
            HttpError::Transport(text) => HttpErrorView::Transport(text@),
            HttpError::Tls(text) => HttpErrorView::Tls(text@),
            HttpError::Timeout(stage) => HttpErrorView::Timeout(stage@),
            HttpError::BodyLengthMismatch { expected, actual } => {
                HttpErrorView::BodyLengthMismatch { expected, actual }
            },
            HttpError::BodyClosed => HttpErrorView::BodyClosed,
            HttpError::RequestBodyRejected => HttpErrorView::RequestBodyRejected,
            HttpError::BackpressureLimit { actual, limit } => HttpErrorView::BackpressureLimit {
                actual: actual as int,
                limit: limit as int,
            },
            HttpError::Canceled => HttpErrorView::Canceled,
            HttpError::ServiceUnavailable(text) => HttpErrorView::ServiceUnavailable(text@),
            HttpError::InvalidState(text) => HttpErrorView::InvalidState(text@),
            HttpError::WebSocket(text) => HttpErrorView::WebSocket(text@),
        }
    }
}

impl HttpErrorView {
    /// The text that is shown.
    pub open spec fn text(self) -> Seq<char> {
        match self {
            HttpErrorView::Config(text) => "HTTP 配置无效："@ + text,
            HttpErrorView::InvalidUri(text) => "URI 无效："@ + text,
            HttpErrorView::UnsupportedScheme(text) => "不支持的 URI scheme："@ + text,
            HttpErrorView::Protocol(text) => "HTTP 协议错误："@ + text,
            HttpErrorView::Transport(text) => "传输错误："@ + text,
            HttpErrorView::Tls(text) => "TLS 错误："@ + text,
            HttpErrorView::Timeout(stage) => stage + " 阶段超时"@,
            HttpErrorView::BodyLengthMismatch { expected, actual } => "body 长度不符：期待 "@
                + decimal(expected as nat) + " 字节，实际 "@ + decimal(actual as nat) + " 字节"@,
            HttpErrorView::BodyClosed => "body 已关闭"@,
            HttpErrorView::RequestBodyRejected => "请求体已被最终响应拒绝"@,
            HttpErrorView::BackpressureLimit { actual, limit } => "块大小 "@ + decimal(
                actual as nat,
            ) + " 超过上限 "@ + decimal(limit as nat),
            HttpErrorView::Canceled => "操作已取消"@,
            HttpErrorView::ServiceUnavailable(text) => "HTTP 客户端服务不可用："@ + text,
            HttpErrorView::InvalidState(text) => "当前状态不允许该操作："@ + text,
            HttpErrorView::WebSocket(text) => "WebSocket 错误："@ + text,
        }
    }
}

/// More bytes than are taken at once. A number that is too large to be written is the largest one
/// that can be.
pub open spec fn over_limit(actual: int, limit: usize) -> HttpErrorView {
    HttpErrorView::BackpressureLimit {
        actual: if actual > usize::MAX {
            usize::MAX as int
        } else {
            actual
        },
        limit: limit as int,
    }
}

/// Two texts, one after the other.
pub fn joined(first: &str, second: &str) -> (text: String)
    ensures
        text@ == first@ + second@,
{
    let mut text = first.to_owned();
    text.append(second);
    text
}

impl HttpError {
    /// The text that is shown.
    pub fn message(&self) -> (text: String)
        ensures
            text@ == self@.text(),
    {
        match self {
            HttpError::Config(text) => joined("HTTP 配置无效：", text.as_str()),
            HttpError::InvalidUri(text) => joined("URI 无效：", text.as_str()),
            HttpError::UnsupportedScheme(text) => joined("不支持的 URI scheme：", text.as_str()),
            HttpError::Protocol(text) => joined("HTTP 协议错误：", text.as_str()),
            HttpError::Transport(text) => joined("传输错误：", text.as_str()),
            HttpError::Tls(text) => joined("TLS 错误：", text.as_str()),
            HttpError::Timeout(stage) => joined(stage, " 阶段超时"),
            HttpError::BodyLengthMismatch { expected, actual } => {
                let mut text = "body 长度不符：期待 ".to_owned();
                push_decimal(&mut text, *expected);
                text.append(" 字节，实际 ");
                push_decimal(&mut text, *actual);
                text.append(" 字节");
                text
            },
            HttpError::BodyClosed => "body 已关闭".to_owned(),
            HttpError::RequestBodyRejected => "请求体已被最终响应拒绝".to_owned(),
            HttpError::BackpressureLimit { actual, limit } => {
                let mut text = "块大小 ".to_owned();
                push_decimal(&mut text, *actual as u64);
                text.append(" 超过上限 ");
                push_decimal(&mut text, *limit as u64);
                text
            },
            HttpError::Canceled => "操作已取消".to_owned(),
            HttpError::ServiceUnavailable(text) => {
                joined("HTTP 客户端服务不可用：", text.as_str())
            },
            HttpError::InvalidState(text) => joined("当前状态不允许该操作：", text),
            HttpError::WebSocket(text) => joined("WebSocket 错误：", text.as_str()),
        }
    }
}

} // verus!
