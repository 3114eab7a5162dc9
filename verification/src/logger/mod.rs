//! The log of a node: which lines are written, in what form, and to which file.

pub mod laws;
pub mod name;
pub mod rotation;
pub mod service;
