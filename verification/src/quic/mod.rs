//! QUIC connections: bookkeeping round the protocol engine of `quinn_proto`.

pub mod books;
pub mod command;
pub mod config;
pub mod engine;
pub mod engine_laws;
pub mod event;
pub mod laws;
pub mod lifecycle;
pub mod link;
pub mod outcome;
pub mod output;
pub mod perform;
pub mod serve;
pub mod service;
pub mod setup;
pub mod state;
pub mod stream_laws;
