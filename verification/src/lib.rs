//! A BitTorrent v1 client core: wire codec, piece bookkeeping and the
//! decisions of peer sessions, with machine-checked contracts.

pub mod bt_client;
pub mod bt_server;
pub mod config;
pub mod digest;
pub mod encoder_decoder;
pub mod logger;
pub mod peer;
pub mod statistics;
pub mod storage_manager;
pub mod text;
pub mod torrent_handler;
pub mod torrent_parser;
pub mod tracker;
pub mod tracker_server;
