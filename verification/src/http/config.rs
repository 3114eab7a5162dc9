//! Limits and timeouts of the HTTP services.

use crate::http::error::HttpError;
#[allow(unused_imports)]
use crate::http::error::HttpErrorView;
use vstd::prelude::*;

verus! {

/// The low mark lies below the high one, and neither chunks nor headers are limited to nothing.
pub open spec fn marks_ok(low: usize, high: usize, chunk: usize, header: usize) -> bool {
    &&& 0 < low < high
    &&& chunk > 0
    &&& header > 0
}

/// What is refused when [`marks_ok`] does not hold.
pub open spec fn marks_error() -> HttpErrorView {
    HttpErrorView::Config("必须满足 0 < input_low_water < input_high_water，且块/头上限非零"@)
}

/// Checks the marks that clients and servers share.
fn validate_common(low: usize, high: usize, chunk: usize, header: usize) -> (result: Result<
    (),
    HttpError,
>)
    ensures
        result is Ok <==> marks_ok(low, high, chunk, header),
        result matches Err(error) ==> error@ == marks_error(),
{
    if low == 0 || low >= high || chunk == 0 || header == 0 {
        return Err(
            HttpError::Config(
                "必须满足 0 < input_low_water < input_high_water，且块/头上限非零".to_owned(),
            ),
        );
    }
    Ok(())
}

/// How the shared client behaves. Times are in milliseconds, sizes in bytes.
#[derive(Debug, Clone)]
pub struct HttpClientConfig {
    pub connect_timeout_ms: u64,
    pub response_head_timeout_ms: u64,
    pub body_idle_timeout_ms: u64,
    pub continue_timeout_ms: u64,
    pub pool_idle_timeout_ms: u64,
    pub max_connections: usize,
    pub max_connections_per_origin: usize,
    pub max_idle_connections: usize,
    pub max_idle_connections_per_origin: usize,
    pub input_high_water: usize,
    pub input_low_water: usize,
    pub max_chunk_size: usize,
    pub max_header_size: usize,
}

impl HttpClientConfig {
    /// The values used where nothing else is said.
    pub open spec fn usual() -> HttpClientConfig {
        HttpClientConfig {
            connect_timeout_ms: 10_000,
            response_head_timeout_ms: 30_000,
            body_idle_timeout_ms: 30_000,
            continue_timeout_ms: 1_000,
            pool_idle_timeout_ms: 60_000,
            max_connections: 256,
            max_connections_per_origin: 16,
            max_idle_connections: 64,
            max_idle_connections_per_origin: 8,
            input_high_water: 262_144,
            input_low_water: 131_072,
            max_chunk_size: 65_536,
            max_header_size: 65_536,
        }
    }

    /// No timeout is zero.
    pub open spec fn timeouts_ok(self) -> bool {
        &&& self.connect_timeout_ms > 0
        &&& self.response_head_timeout_ms > 0
        &&& self.body_idle_timeout_ms > 0
        &&& self.continue_timeout_ms > 0
        &&& self.pool_idle_timeout_ms > 0
    }

    /// Some connections are allowed, to one origin no more than in all.
    pub open spec fn connections_ok(self) -> bool {
        0 < self.max_connections_per_origin <= self.max_connections
    }

    /// No more idle connections are kept than connections are allowed.
    pub open spec fn idle_ok(self) -> bool {
        &&& self.max_idle_connections <= self.max_connections
        &&& self.max_idle_connections_per_origin <= self.max_connections_per_origin
    }

    /// What is wrong with the values; the first of several.
    pub open spec fn fault(self) -> Option<HttpErrorView> {
        if !marks_ok(
            self.input_low_water,
            self.input_high_water,
            self.max_chunk_size,
            self.max_header_size,
        ) {
            Some(marks_error())
        } else if !self.timeouts_ok() {
            Some(HttpErrorView::Config("客户端超时必须大于 0"@))
        } else if !self.connections_ok() {
            Some(HttpErrorView::Config("客户端连接上限无效"@))
        } else if !self.idle_ok() {
            Some(HttpErrorView::Config("客户端空闲连接上限无效"@))
        } else {
            None
        }
    }

    /// Whether the values can be used.
    pub fn validate(&self) -> (result: Result<(), HttpError>)
        ensures
            result is Ok <==> self.fault() is None,
            result matches Err(error) ==> Some(error@) == self.fault(),
    {
        validate_common(
            self.input_low_water,
            self.input_high_water,
            self.max_chunk_size,
            self.max_header_size,
        )?;
        if self.connect_timeout_ms == 0 || self.response_head_timeout_ms == 0
            || self.body_idle_timeout_ms == 0 || self.continue_timeout_ms == 0
            || self.pool_idle_timeout_ms == 0 {
            return Err(HttpError::Config("客户端超时必须大于 0".to_owned()));
        }
        if self.max_connections == 0 || self.max_connections_per_origin == 0
            || self.max_connections_per_origin > self.max_connections {
            return Err(HttpError::Config("客户端连接上限无效".to_owned()));
        }
        if self.max_idle_connections > self.max_connections || self.max_idle_connections_per_origin
            > self.max_connections_per_origin {
            return Err(HttpError::Config("客户端空闲连接上限无效".to_owned()));
        }
        Ok(())
    }
}

impl Default for HttpClientConfig {
    fn default() -> (config: HttpClientConfig)
        ensures
            config == HttpClientConfig::usual(),
            config.fault() is None,
    {
        HttpClientConfig {
            connect_timeout_ms: 10_000,
            response_head_timeout_ms: 30_000,
            body_idle_timeout_ms: 30_000,
            continue_timeout_ms: 1_000,
            pool_idle_timeout_ms: 60_000,
            max_connections: 256,
            max_connections_per_origin: 16,
            max_idle_connections: 64,
            max_idle_connections_per_origin: 8,
            input_high_water: 262_144,
            input_low_water: 131_072,
            max_chunk_size: 65_536,
            max_header_size: 65_536,
        }
    }
}

/// How a server behaves. Times are in milliseconds, sizes in bytes.
#[derive(Debug, Clone)]
pub struct HttpServerConfig {
    pub header_timeout_ms: u64,
    pub body_idle_timeout_ms: u64,
    pub input_high_water: usize,
    pub input_low_water: usize,
    pub max_chunk_size: usize,
    pub max_header_size: usize,
}

impl HttpServerConfig {
    /// The values used where nothing else is said.
    pub open spec fn usual() -> HttpServerConfig {
        HttpServerConfig {
            header_timeout_ms: 30_000,
            body_idle_timeout_ms: 30_000,
            input_high_water: 262_144,
            input_low_water: 131_072,
            max_chunk_size: 65_536,
            max_header_size: 65_536,
        }
    }

    /// What is wrong with the values; the first of several.
    pub open spec fn fault(self) -> Option<HttpErrorView> {
        if !marks_ok(
            self.input_low_water,
            self.input_high_water,
            self.max_chunk_size,
            self.max_header_size,
        ) {
            Some(marks_error())
        } else if self.header_timeout_ms == 0 || self.body_idle_timeout_ms == 0 {
            Some(HttpErrorView::Config("服务端超时必须大于 0"@))
        } else {
            None
        }
    }

    /// Whether the values can be used.
    pub fn validate(&self) -> (result: Result<(), HttpError>)
        ensures
            result is Ok <==> self.fault() is None,
            result matches Err(error) ==> Some(error@) == self.fault(),
    {
        validate_common(
            self.input_low_water,
            self.input_high_water,
            self.max_chunk_size,
            self.max_header_size,
        )?;
        if self.header_timeout_ms == 0 || self.body_idle_timeout_ms == 0 {
            return Err(HttpError::Config("服务端超时必须大于 0".to_owned()));
        }
        Ok(())
    }
}

impl Default for HttpServerConfig {
    fn default() -> (config: HttpServerConfig)
        ensures
            config == HttpServerConfig::usual(),
            config.fault() is None,
    {
        HttpServerConfig {
            header_timeout_ms: 30_000,
            body_idle_timeout_ms: 30_000,
            input_high_water: 262_144,
            input_low_water: 131_072,
            max_chunk_size: 65_536,
            max_header_size: 65_536,
        }
    }
}

} // verus!
