//! The settings of the client.

pub mod cfg;
pub mod constants;
