//! Bencode values and the percent-encoding of info hashes.

pub mod bencode;
pub mod url_encoder;
