//! Verified core of the rskynet services.
//!
//! The library holds what the services decide: which socket is in which state, which bytes go
//! out, whom a completion is told to. It performs no I/O. Each service is a machine that takes a
//! command or an event and leaves behind the effects which its surroundings carry out.

pub mod error;
pub mod http;
pub mod launcher;
pub mod logger;
pub mod macros;
pub mod net;
pub mod places;
pub mod plugin;
pub mod quic;
pub mod signal;
pub mod text;
pub mod timer;
