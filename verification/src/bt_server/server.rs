//! Which torrent an incoming connection is for.

use crate::config::cfg::Cfg;
use crate::digest::{from_hex, is_hex, same_bytes};
use crate::peer::handshake::{decoded_handshake, Handshake};
use crate::peer::peer_session::PeerSessionError;
use crate::torrent_handler::status::AtomicTorrentStatusError;
use crate::torrent_parser::torrent::Torrent;
use vstd::prelude::*;

verus! {

/// Why an incoming connection is not served.
#[derive(Debug, PartialEq, Eq, Clone)]
pub enum BtServerError {
    /// The status of the torrent refused an operation.
    TorrentStatusError(AtomicTorrentStatusError),
    /// The listening socket could not be opened.
    OpeningListenerError,
    /// The connection could not be looked at.
    HandleConnectionError,
    /// The session with the peer failed.
    PeerSessionError(PeerSessionError),
    /// What the peer sent first is no handshake of the protocol.
    BtPeerError,
    /// The handshake is for an info hash that none of our torrents has.
    TorrentNotFound(Vec<u8>),
    /// The timeouts of the socket could not be set.
    ErrorSettingStreamTimeout,
}

/// The torrent has this info hash.
pub open spec fn has_info_hash(torrent: Torrent, info_hash: Seq<u8>) -> bool {
    is_hex(torrent.info_hash_text()) && from_hex(torrent.info_hash_text()) == info_hash
}

/// The acceptor of incoming connections for the torrents of the client.
pub struct BtServer {
    config: Cfg,
    torrents: Vec<Torrent>,
}

impl BtServer {
    /// The torrents that connections are accepted for.
    pub closed spec fn torrents(&self) -> Seq<Torrent> {
        self.torrents@
    }

    /// The settings that the acceptor was made with.
    pub closed spec fn settings(&self) -> Cfg {
        self.config
    }

    /// An acceptor for the given torrents, with the given settings.
    pub fn new(torrents: Vec<Torrent>, config: Cfg) -> (server: Self)
        ensures
            server.torrents() == torrents@,
            server.settings() == config,
    {
        Self { config, torrents }
    }

    /// The settings that the acceptor was made with: the port to listen on
    /// and the timeouts of the sockets are taken from them.
    pub fn config(&self) -> (config: &Cfg)
        ensures
            *config == self.settings(),
    {
        &self.config
    }

    /// The torrent at a position, for the session that serves it.
    pub fn torrent(&self, position: usize) -> (torrent: &Torrent)
        requires
            position < self.torrents().len(),
        ensures
            *torrent == self.torrents()[position as int],
    {
        &self.torrents[position]
    }

    /// Reads the handshake that opens an incoming connection and finds the
    /// torrent that it is for: the first whose info hash is the one of the
    /// handshake. Bytes that are no handshake are `BtPeerError`; a hash that
    /// no torrent has is `TorrentNotFound`, which carries the hash.
    pub fn handle_connection(&self, handshake: &[u8]) -> (result: Result<usize, BtServerError>)
        ensures
            match decoded_handshake(handshake@) {
                None => result == Err::<usize, BtServerError>(BtServerError::BtPeerError),
                Some(received) => match result {
                    Ok(position) => {
                        &&& position < self.torrents().len()
                        &&& has_info_hash(self.torrents()[position as int], received.info_hash)
                        &&& forall|earlier: int|
                            0 <= earlier < position ==> !has_info_hash(
                                #[trigger] self.torrents()[earlier],
                                received.info_hash,
                            )
                    },
                    Err(error) => {
                        &&& error matches BtServerError::TorrentNotFound(hash)
                        &&& hash@ == received.info_hash
                        &&& forall|any: int|
                            0 <= any < self.torrents().len() ==> !has_info_hash(
                                #[trigger] self.torrents()[any],
                                received.info_hash,
                            )
                    },
                },
            },
    {
        let received = match Handshake::from_bytes(handshake) {
            Ok(received) => received,
            Err(_) => { return Err(BtServerError::BtPeerError); },
        };
        let mut position: usize = 0;
        while position < self.torrents.len()
            invariant
                position <= self.torrents@.len(),
                decoded_handshake(handshake@) == Some(received@),
                forall|earlier: int|
                    0 <= earlier < position ==> !has_info_hash(
                        #[trigger] self.torrents@[earlier],
                        received.info_hash@,
                    ),
            decreases self.torrents@.len() - position,
        {
            let found: bool = match self.torrents[position].get_info_hash_as_bytes() {
                Ok(bytes) => same_bytes(bytes.as_slice(), received.info_hash.as_slice()),
                Err(_) => false,
            };
            if found {
                return Ok(position);
            }
            position += 1;
        }
        Err(BtServerError::TorrentNotFound(received.info_hash))
    }
}

} // verus!
