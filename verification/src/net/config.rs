//! Settings of the socket layer.

use crate::error::Error;
use vstd::prelude::*;

verus! {

/// Settings of the socket layer.
#[derive(Debug, Clone, Copy, PartialEq, Eq, Structural)]
pub struct NetConfig {
    /// How many events one wait takes at most.
    pub events: usize,
    /// How many sockets there can be; a socket's slot is its number modulo
    /// this.
    pub max_socket: usize,
    /// The read buffer that a socket starts with.
    pub min_read_buffer: usize,
    /// So many waiting bytes are the first that the owner is told of.
    pub warn_size: usize,
}

impl Default for NetConfig {
    /// The settings where nothing is configured.
    fn default() -> (config: NetConfig)
        ensures
            config == (NetConfig {
                events: 1024,
                max_socket: 65536,
                min_read_buffer: 64,
                warn_size: 1_048_576,
            }),
            config.acceptable(),
    {
        NetConfig { events: 1024, max_socket: 65536, min_read_buffer: 64, warn_size: 1_048_576 }
    }
}

impl NetConfig {
    /// Neither events, sockets nor read buffers are zero.
    pub open spec fn acceptable(&self) -> bool {
        self.events > 0 && self.max_socket > 0 && self.min_read_buffer > 0
    }

    /// Says which setting is zero, if one is.
    pub fn validate(&self) -> (result: Result<(), Error>)
        ensures
            result.is_ok() <==> self.acceptable(),
            result matches Err(error) ==> error is Config && error.text() == (
            if self.events == 0 {
                "[net] events 必须大于 0"@
            } else if self.max_socket == 0 {
                "[net] max_socket 必须大于 0"@
            } else {
                "[net] min_read_buffer 必须大于 0"@
            }),
    {
        if self.events == 0 {
            return Err(Error::config("[net] events 必须大于 0"));
        }
        if self.max_socket == 0 {
            return Err(Error::config("[net] max_socket 必须大于 0"));
        }
        if self.min_read_buffer == 0 {
            return Err(Error::config("[net] min_read_buffer 必须大于 0"));
        }
        Ok(())
    }
}

} // verus!
