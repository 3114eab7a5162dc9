//! Plugins that make up a service: which there are, in what order they are brought up, and what
//! they may ask of one another.

pub mod host;
pub mod laws;
pub mod order;
pub mod registry;
pub mod resolve;
