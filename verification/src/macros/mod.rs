//! What the attributes make of the code they stand on: which methods they take over, and what
//! they refuse.

pub mod block;
pub mod cluster;
pub mod dispatch;
pub mod laws;
pub mod plugin;
pub mod service;
pub mod shape;
pub mod signal;
