//! The state of one torrent's download and the driver that feeds it peers.

pub mod handler;
pub mod piece_status;
pub mod status;
