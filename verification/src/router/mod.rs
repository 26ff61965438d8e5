//! The router's view of its workers.

pub mod registry;
