//! HTTP/1.1: a shared client and servers that live inside other services.

pub mod body;
pub mod call;
pub mod client;
pub mod client_laws;
pub mod config;
pub mod connection;
pub mod effect;
pub mod error;
pub mod exchange;
pub mod handshake;
pub mod headers;
pub mod incoming;
pub mod laws;
pub mod origin;
pub mod pool;
pub mod receive;
pub mod reply;
pub mod request;
pub mod respond;
pub mod serve;
pub mod server;
pub mod server_laws;
pub mod socket;
pub mod socket_laws;
pub mod start;
pub mod stream;
pub mod traffic;
pub mod transport;
pub mod upgrade;
pub mod websocket;
