//! The acceptor of incoming connections.

pub mod server;
