//! What the client as a whole needs: its errors and its peer id.

pub mod btclient_error;
pub mod error_message;
pub mod peer_id;
