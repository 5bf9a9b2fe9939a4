//! The plain parts of the companion tracker.

pub mod announce_response;
pub mod http_status;
pub mod peer;
pub mod request;
pub mod swarm;
