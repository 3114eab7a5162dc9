//! Sockets: slots, states, buffers and what each request and each event of a
//! socket leads to. The sockets themselves are kept elsewhere; here they are
//! known by number.

pub mod buffer;
pub mod command;
pub mod completion;
pub mod config;
pub mod event;
pub mod laws;
pub mod output;
pub mod request;
pub mod service;
pub mod socket;
pub mod traffic;
