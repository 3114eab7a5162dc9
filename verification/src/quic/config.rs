//! Limits of the QUIC service and transport parameters of an endpoint.

use crate::error::Error;
use quinn_proto::{IdleTimeout, TransportConfig, VarInt};
use std::time::Duration;
use vstd::prelude::*;

verus! {

/// Transport parameters of `quinn_proto`.
#[verifier::external_type_specification]
#[verifier::external_body]
pub struct ExTransportConfig(TransportConfig);

/// Limits of the QUIC service on one node.
#[derive(Debug, Clone, Copy, PartialEq, Eq, Structural)]
pub struct QuicConfig {
    pub max_connections: usize,
    pub max_handshakes: usize,
    pub write_high_water: usize,
    pub write_low_water: usize,
    pub max_chunk_size: usize,
    pub handshake_timeout_ms: u64,
}

impl Default for QuicConfig {
    /// The limits where nothing is configured.
    fn default() -> (config: QuicConfig)
        ensures
            config == (QuicConfig {
                max_connections: 65_536,
                max_handshakes: 4_096,
                write_high_water: 4_194_304,
                write_low_water: 2_097_152,
                max_chunk_size: 65_536,
                handshake_timeout_ms: 10_000,
            }),
            config.acceptable(),
    {
        QuicConfig {
            max_connections: 65_536,
            max_handshakes: 4_096,
            write_high_water: 4_194_304,
            write_low_water: 2_097_152,
            max_chunk_size: 65_536,
            handshake_timeout_ms: 10_000,
        }
    }
}

impl QuicConfig {
    /// There is room for a connection and a handshake, and no more handshakes
    /// than connections.
    pub open spec fn limits_ok(&self) -> bool {
        0 < self.max_handshakes <= self.max_connections
    }

    /// The low water mark lies above zero and below the high one.
    pub open spec fn marks_ok(&self) -> bool {
        0 < self.write_low_water < self.write_high_water
    }

    /// All limits make sense.
    pub open spec fn acceptable(&self) -> bool {
        &&& self.limits_ok()
        &&& self.marks_ok()
        &&& self.max_chunk_size > 0
        &&& self.handshake_timeout_ms > 0
    }

    /// Says what is wrong with the limits, if anything is.
    pub fn validate(&self) -> (result: Result<(), Error>)
        ensures
            result.is_ok() <==> self.acceptable(),
            result matches Err(error) ==> error is Config && error.text() == (
            if !self.limits_ok() {
                "[quic] 连接/握手上限无效"@
            } else if !self.marks_ok() {
                "[quic] 必须满足 0 < write_low_water < write_high_water"@
            } else {
                "[quic] max_chunk_size 和 handshake_timeout_ms 必须大于 0"@
            }),
    {
        if self.max_connections == 0 || self.max_handshakes == 0 || self.max_handshakes
            > self.max_connections {
            return Err(Error::config("[quic] 连接/握手上限无效"));
        }
        if self.write_low_water == 0 || self.write_low_water >= self.write_high_water {
            return Err(
                Error::config("[quic] 必须满足 0 < write_low_water < write_high_water"),
            );
        }
        if self.max_chunk_size == 0 || self.handshake_timeout_ms == 0 {
            return Err(
                Error::config("[quic] max_chunk_size 和 handshake_timeout_ms 必须大于 0"),
            );
        }
        Ok(())
    }
}

/// Transport parameters of one endpoint.
#[derive(Debug, Clone, Copy, PartialEq, Eq, Structural)]
pub struct QuicTransportOptions {
    pub max_idle_timeout_ms: u64,
    pub max_concurrent_bidi_streams: u32,
    pub max_concurrent_uni_streams: u32,
    pub stream_receive_window: u32,
    pub receive_window: u32,
    pub datagrams: bool,
    pub datagram_receive_buffer_size: usize,
    pub datagram_send_buffer_size: usize,
}

impl Default for QuicTransportOptions {
    /// The parameters where nothing is configured.
    fn default() -> (options: QuicTransportOptions)
        ensures
            options == QuicTransportOptions::usual(),
            options.windows_ok(),
    {
        QuicTransportOptions {
            max_idle_timeout_ms: 30_000,
            max_concurrent_bidi_streams: 100,
            max_concurrent_uni_streams: 100,
            stream_receive_window: 1_048_576,
            receive_window: 8_388_608,
            datagrams: true,
            datagram_receive_buffer_size: 1_048_576,
            datagram_send_buffer_size: 1_048_576,
        }
    }
}

/// `IdleTimeout::try_from` on a duration of `millis` milliseconds: it succeeds
/// where the number fits a variable length integer of 62 bits.
#[verifier::external_body]
fn idle_timeout_fits(millis: u64) -> (fits: bool)
    ensures
        fits == (millis < 0x4000_0000_0000_0000),
{
    IdleTimeout::try_from(Duration::from_millis(millis)).is_ok()
}

/// What transport parameters are set to.
#[verifier::ext_equal]
pub struct TransportView {
    pub max_idle_timeout_ms: u64,
    pub max_concurrent_bidi_streams: u32,
    pub max_concurrent_uni_streams: u32,
    pub stream_receive_window: u32,
    pub receive_window: u32,
    /// Without a buffer no datagrams are taken.
    pub receive_buffer: Option<usize>,
    pub send_buffer: usize,
}

/// Transport parameters as the protocol engine takes them.
pub struct Transport {
    pub config: TransportConfig,
    /// What they were set to.
    pub of: Ghost<TransportView>,
}

/// `TransportConfig::default` with the idle timeout, the stream limits, the
/// windows and the datagram buffers set to the given numbers. The engine's
/// value is opaque: what it was set to is recorded beside it.
#[verifier::external_body]
fn transport_config(
    options: &QuicTransportOptions,
    receive_buffer: Option<usize>,
    send_buffer: usize,
) -> (transport: Transport)
    requires
        options.max_idle_timeout_ms < 0x4000_0000_0000_0000,
    ensures
        transport.of@ == options.settings(receive_buffer, send_buffer),
{
    let mut config = TransportConfig::default();
    let idle = IdleTimeout::try_from(Duration::from_millis(options.max_idle_timeout_ms));
    config.max_idle_timeout(idle.ok());
    config.max_concurrent_bidi_streams(VarInt::from_u32(options.max_concurrent_bidi_streams));
    config.max_concurrent_uni_streams(VarInt::from_u32(options.max_concurrent_uni_streams));
    config.stream_receive_window(VarInt::from_u32(options.stream_receive_window));
    config.receive_window(VarInt::from_u32(options.receive_window));
    config.datagram_receive_buffer_size(receive_buffer);
    config.datagram_send_buffer_size(send_buffer);
    Transport { config, of: Ghost(options.settings(receive_buffer, send_buffer)) }
}

impl QuicTransportOptions {
    /// The parameters where nothing is configured.
    pub open spec fn usual() -> QuicTransportOptions {
        QuicTransportOptions {
            max_idle_timeout_ms: 30_000,
            max_concurrent_bidi_streams: 100,
            max_concurrent_uni_streams: 100,
            stream_receive_window: 1_048_576,
            receive_window: 8_388_608,
            datagrams: true,
            datagram_receive_buffer_size: 1_048_576,
            datagram_send_buffer_size: 1_048_576,
        }
    }

    /// What the engine is told with these buffers for datagrams.
    pub open spec fn settings(
        &self,
        receive_buffer: Option<usize>,
        send_buffer: usize,
    ) -> TransportView {
        TransportView {
            max_idle_timeout_ms: self.max_idle_timeout_ms,
            max_concurrent_bidi_streams: self.max_concurrent_bidi_streams,
            max_concurrent_uni_streams: self.max_concurrent_uni_streams,
            stream_receive_window: self.stream_receive_window,
            receive_window: self.receive_window,
            receive_buffer,
            send_buffer,
        }
    }

    /// The receive and send buffers for datagrams: none where datagrams are
    /// switched off.
    pub open spec fn buffers(&self) -> (Option<usize>, usize) {
        if self.datagrams {
            (Some(self.datagram_receive_buffer_size), self.datagram_send_buffer_size)
        } else {
            (None, 0)
        }
    }

    /// What the engine is told.
    pub open spec fn told(&self) -> TransportView {
        self.settings(self.buffers().0, self.buffers().1)
    }

    /// No timeout or window is empty.
    pub open spec fn windows_ok(&self) -> bool {
        &&& self.max_idle_timeout_ms > 0
        &&& self.stream_receive_window > 0
        &&& self.receive_window > 0
    }

    /// The receive and send buffers for datagrams: none where datagrams are
    /// switched off.
    pub fn datagram_buffers(&self) -> (buffers: (Option<usize>, usize))
        ensures
            buffers == self.buffers(),
    {
        if self.datagrams {
            (Some(self.datagram_receive_buffer_size), self.datagram_send_buffer_size)
        } else {
            (None, 0)
        }
    }

    /// The parameters as the protocol engine takes them.
    pub fn build(&self) -> (result: Result<Transport, Error>)
        ensures
            result.is_ok() <==> self.windows_ok() && self.max_idle_timeout_ms
                < 0x4000_0000_0000_0000,
            result matches Ok(transport) ==> transport.of@ == self.told(),
            result matches Err(error) ==> error is Config && error.text() == (
            if !self.windows_ok() {
                "QUIC transport 流控/超时参数无效"@
            } else {
                "QUIC idle timeout 超出可表示范围"@
            }),
    {
        if self.max_idle_timeout_ms == 0 || self.stream_receive_window == 0 || self.receive_window
            == 0 {
            return Err(Error::config("QUIC transport 流控/超时参数无效"));
        }
        if !idle_timeout_fits(self.max_idle_timeout_ms) {
            return Err(Error::config("QUIC idle timeout 超出可表示范围"));
        }
        let buffers = self.datagram_buffers();
        Ok(transport_config(self, buffers.0, buffers.1))
    }
}

} // verus!
