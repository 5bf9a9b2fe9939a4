//! What is exchanged with a peer, and the decisions of a session with it.

pub mod bitfield;
pub mod bt_peer;
pub mod handshake;
pub mod message;
pub mod peer_session;
pub mod peer_status;
pub mod session_status;
pub mod wire;
