use dtorrent::bt_server::server::{BtServer, BtServerError};
use dtorrent::config::cfg::Cfg;
use dtorrent::peer::bitfield::Bitfield;
use dtorrent::peer::bt_peer::BtPeer;
use dtorrent::peer::handshake::Handshake;
use dtorrent::torrent_handler::handler::{
    HandlerAction, HandlerEvent, TorrentHandler, TorrentHandlerError,
};
use dtorrent::torrent_handler::status::{
    AtomicTorrentStatus, AtomicTorrentStatusError, PieceCommit,
};
use dtorrent::torrent_parser::info::Info;
use dtorrent::torrent_parser::torrent::Torrent;
use sha1::{Digest, Sha1};

fn config(max_peers_per_torrent: u32) -> Cfg {
    Cfg {
        tcp_port: 6881,
        log_directory: "./logs".to_string(),
        download_directory: "./downloads".to_string(),
        pipelining_size: 5,
        read_write_seconds_timeout: 120,
        max_peers_per_torrent,
        max_log_file_kb_size: 100,
    }
}

fn torrent(info_hash: &str) -> Torrent {
    Torrent {
        announce_url: "announce".to_string(),
        info: Info {
            length: 2,
            name: "file".to_string(),
            piece_length: 1,
            pieces: [Sha1::digest([1u8]).to_vec(), Sha1::digest([2u8]).to_vec()].concat(),
        },
        info_hash: info_hash.to_string(),
    }
}

fn peer(port: i64) -> BtPeer {
    BtPeer::new("127.0.0.1".to_string(), port)
}

fn finish(status: &mut AtomicTorrentStatus) {
    let all = Bitfield::new(vec![0xC0]);
    for index in 0..2u32 {
        assert_eq!(status.select_piece(&all), Ok(Some(index)));
        assert!(matches!(
            status.piece_downloaded(index, vec![index as u8 + 1]),
            Ok(PieceCommit::Save { .. })
        ));
        status.piece_saved(true).unwrap();
    }
    assert!(status.is_finished());
}

#[test]
fn the_handler_asks_the_tracker_first() {
    let torrent = torrent("00");
    let mut status = AtomicTorrentStatus::new(&torrent, config(2));
    let mut handler = TorrentHandler::new(torrent, config(2));
    assert_eq!(
        handler.handle(&mut status, HandlerEvent::Resume),
        Ok(HandlerAction::FetchPeers)
    );
    // An empty answer: ask again.
    assert_eq!(
        handler.handle(&mut status, HandlerEvent::Peers(vec![])),
        Ok(HandlerAction::FetchPeers)
    );
    assert_eq!(handler.torrent().info.name, "file");
    assert_eq!(handler.config().max_peers_per_torrent, 2);
}

#[test]
fn backpressure() {
    let torrent = torrent("00");
    let mut status = AtomicTorrentStatus::new(&torrent, config(2));
    let mut handler = TorrentHandler::new(torrent, config(2));
    let peers = vec![peer(1), peer(2), peer(3), peer(4)];
    assert_eq!(
        handler.handle(&mut status, HandlerEvent::Peers(peers)),
        Ok(HandlerAction::Connect(peer(1)))
    );
    assert_eq!(status.current_peers(), 1);
    assert_eq!(
        handler.handle(&mut status, HandlerEvent::Resume),
        Ok(HandlerAction::Connect(peer(2)))
    );
    assert_eq!(status.current_peers(), 2);
    // The third session has to wait.
    assert_eq!(
        handler.handle(&mut status, HandlerEvent::Resume),
        Ok(HandlerAction::WaitForDisconnect)
    );
    assert_eq!(status.current_peers(), 2);
    // A stale event does not wake the handler.
    assert_eq!(
        handler.handle(&mut status, HandlerEvent::Disconnected(0)),
        Ok(HandlerAction::WaitForDisconnect)
    );
    assert_eq!(
        handler.handle(&mut status, HandlerEvent::Disconnected(2)),
        Ok(HandlerAction::WaitForDisconnect)
    );
    // A session ends and leaves one connected.
    status.peer_disconnected().unwrap();
    assert_eq!(
        handler.handle(&mut status, HandlerEvent::Disconnected(1)),
        Ok(HandlerAction::Connect(peer(3)))
    );
    assert_eq!(status.current_peers(), 2);
    // And the fourth waits again.
    assert_eq!(
        handler.handle(&mut status, HandlerEvent::Resume),
        Ok(HandlerAction::WaitForDisconnect)
    );
}

#[test]
fn room_that_was_granted_is_used_even_if_it_was_taken_meanwhile() {
    let torrent = torrent("00");
    let mut status = AtomicTorrentStatus::new(&torrent, config(1));
    let mut handler = TorrentHandler::new(torrent, config(1));
    assert_eq!(
        handler.handle(&mut status, HandlerEvent::Peers(vec![peer(1), peer(2)])),
        Ok(HandlerAction::Connect(peer(1)))
    );
    assert_eq!(
        handler.handle(&mut status, HandlerEvent::Resume),
        Ok(HandlerAction::WaitForDisconnect)
    );
    // The event says that nobody was left; an incoming peer has connected
    // since.
    assert_eq!(
        handler.handle(&mut status, HandlerEvent::Disconnected(0)),
        Ok(HandlerAction::Connect(peer(2)))
    );
    assert_eq!(status.current_peers(), 2);
}

#[test]
fn a_session_that_could_not_start_is_counted_as_gone() {
    let torrent = torrent("00");
    let mut status = AtomicTorrentStatus::new(&torrent, config(2));
    let mut handler = TorrentHandler::new(torrent, config(2));
    assert_eq!(
        handler.handle(&mut status, HandlerEvent::Peers(vec![peer(1), peer(2)])),
        Ok(HandlerAction::Connect(peer(1)))
    );
    assert_eq!(status.current_peers(), 1);
    assert_eq!(
        handler.handle(&mut status, HandlerEvent::SpawnFailed),
        Ok(HandlerAction::Connect(peer(2)))
    );
    assert_eq!(status.current_peers(), 1);
    status.peer_disconnected().unwrap();
    assert_eq!(
        handler.handle(&mut status, HandlerEvent::SpawnFailed),
        Err(TorrentHandlerError::TorrentStatusError(
            AtomicTorrentStatusError::NoPeersConnected
        ))
    );
}

#[test]
fn the_handler_stops_when_the_download_is_finished() {
    let torrent = torrent("00");
    let mut status = AtomicTorrentStatus::new(&torrent, config(2));
    let mut handler = TorrentHandler::new(torrent, config(2));
    assert_eq!(
        handler.handle(&mut status, HandlerEvent::Peers(vec![peer(1), peer(2), peer(3)])),
        Ok(HandlerAction::Connect(peer(1)))
    );
    finish(&mut status);
    // Peers are left in the list, but nothing is left to download.
    assert_eq!(
        handler.handle(&mut status, HandlerEvent::Resume),
        Ok(HandlerAction::Finished)
    );
    assert_eq!(
        handler.handle(&mut status, HandlerEvent::Resume),
        Ok(HandlerAction::Finished)
    );
    assert_eq!(status.current_peers(), 1);
}

#[test]
fn with_no_room_at_all_the_handler_waits() {
    let torrent = torrent("00");
    let mut status = AtomicTorrentStatus::new(&torrent, config(0));
    let mut handler = TorrentHandler::new(torrent, config(0));
    assert_eq!(
        handler.handle(&mut status, HandlerEvent::Peers(vec![peer(1)])),
        Ok(HandlerAction::WaitForDisconnect)
    );
    assert_eq!(
        handler.handle(&mut status, HandlerEvent::Disconnected(0)),
        Ok(HandlerAction::WaitForDisconnect)
    );
    assert_eq!(
        handler.handle(&mut status, HandlerEvent::Disconnected(usize::MAX)),
        Ok(HandlerAction::WaitForDisconnect)
    );
}

#[test]
fn the_server_finds_the_torrent_of_a_handshake() {
    let first = "2c6b6858d61da9543d4231a71db4b1c9264b0685";
    let second = "0102030405060708090a0b0c0d0e0f1011121314";
    let server = BtServer::new(
        vec![torrent(first), torrent("not hexadecimal"), torrent(second), torrent(second)],
        config(2),
    );
    let handshake = |hash: Vec<u8>| Handshake::new(hash, b"-XX0001-111111111111".to_vec()).to_bytes();
    let second_hash: Vec<u8> = (1..=20).collect();
    assert_eq!(server.handle_connection(&handshake(second_hash)), Ok(2));
    assert_eq!(server.torrent(2).info_hash, second);
    let first_hash = server.torrent(0).get_info_hash_as_bytes().unwrap();
    assert_eq!(server.handle_connection(&handshake(first_hash)), Ok(0));
    assert_eq!(
        server.handle_connection(&handshake(vec![7; 20])),
        Err(BtServerError::TorrentNotFound(vec![7; 20]))
    );
    assert_eq!(
        server.handle_connection(&[19, 1, 2]),
        Err(BtServerError::BtPeerError)
    );
    assert_eq!(server.config().tcp_port, 6881);
    let empty = BtServer::new(vec![], config(2));
    assert_eq!(
        empty.handle_connection(&handshake(vec![7; 20])),
        Err(BtServerError::TorrentNotFound(vec![7; 20]))
    );
}
