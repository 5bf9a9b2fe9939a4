use dtorrent::config::cfg::Cfg;
use dtorrent::peer::bitfield::Bitfield;
use dtorrent::peer::bt_peer::BtPeer;
use dtorrent::peer::handshake::Handshake;
use dtorrent::peer::message::{Block, FromMessageError, Message, MessageId, Request};
use dtorrent::peer::peer_session::{Next, PeerSession, PeerSessionError, Phase, Step};
use dtorrent::peer::peer_status::PeerStatus;
use dtorrent::peer::session_status::SessionStatus;
use dtorrent::torrent_handler::piece_status::PieceStatus;
use dtorrent::torrent_handler::status::{
    AtomicTorrentStatus, AtomicTorrentStatusError, PieceCommit,
};
use dtorrent::torrent_parser::info::Info;
use dtorrent::torrent_parser::torrent::Torrent;
use sha1::{Digest, Sha1};

const INFO_HASH: &str = "2c6b6858d61da9543d4231a71db4b1c9264b0685";

fn info_hash() -> Vec<u8> {
    vec![
        0x2c, 0x6b, 0x68, 0x58, 0xd6, 0x1d, 0xa9, 0x54, 0x3d, 0x42, 0x31, 0xa7, 0x1d, 0xb4, 0xb1,
        0xc9, 0x26, 0x4b, 0x06, 0x85,
    ]
}

fn client_id() -> Vec<u8> {
    b"DTorrent:00000000000".to_vec()
}

fn config(pipelining_size: u32) -> Cfg {
    Cfg {
        tcp_port: 6881,
        log_directory: "./logs".to_string(),
        download_directory: "./downloads".to_string(),
        pipelining_size,
        read_write_seconds_timeout: 120,
        max_peers_per_torrent: 2,
        max_log_file_kb_size: 100,
    }
}

fn torrent(length: i64, piece_length: i64) -> Torrent {
    Torrent {
        announce_url: "announce".to_string(),
        info: Info {
            length,
            name: "file".to_string(),
            piece_length,
            pieces: vec![],
        },
        info_hash: INFO_HASH.to_string(),
    }
}

fn session(length: i64, piece_length: i64, pipelining_size: u32) -> PeerSession {
    PeerSession::new(
        BtPeer::new("127.0.0.1".to_string(), 6881),
        torrent(length, piece_length),
        config(pipelining_size),
        client_id(),
    )
    .unwrap()
}

fn peer_handshake() -> Vec<u8> {
    Handshake::new(info_hash(), b"-XX0001-111111111111".to_vec()).to_bytes()
}

fn request(index: u32, begin: u32, length: u32) -> Vec<u8> {
    Message::new(
        MessageId::Request,
        Request::new(index, begin, length).to_bytes(),
    )
    .to_bytes()
}

fn piece_message(index: u32, begin: u32, block: Vec<u8>) -> Message {
    Message::new(
        MessageId::Piece,
        Block {
            index,
            begin,
            block,
        }
        .to_bytes(),
    )
}

fn read() -> Step {
    Step {
        send: vec![],
        next: Next::Read,
    }
}

/// A session that we opened, after the handshakes, the peer's bitfield, our
/// interest and the peer's unchoke: it asks for a piece.
fn unchoked(length: i64, piece_length: i64, pipelining_size: u32) -> PeerSession {
    let mut session = session(length, piece_length, pipelining_size);
    session.start_outgoing_seeder().unwrap();
    session.receive_handshake(&peer_handshake()).unwrap();
    let step = session
        .handle_message(Some(Message::new(MessageId::Bitfield, vec![0xE0])))
        .unwrap();
    assert_eq!(
        step,
        Step {
            send: vec![0, 0, 0, 1, 2],
            next: Next::Read
        }
    );
    let step = session
        .handle_message(Some(Message::new(MessageId::Unchoke, vec![])))
        .unwrap();
    assert_eq!(
        step,
        Step {
            send: vec![],
            next: Next::Select
        }
    );
    session
}

#[test]
fn a_session_starts_choked_and_not_interested() {
    let session = session(81920, 32768, 5);
    assert_eq!(session.phase(), Phase::Start);
    assert_eq!(
        session.status(),
        SessionStatus {
            choked: true,
            interested: false,
            peer_choked: true,
            peer_interested: false
        }
    );
    assert_eq!(session.status(), SessionStatus::new());
    assert_eq!(session.bitfield().bitfield, Vec::<u8>::new());
    assert_eq!(session.piece_in_flight(), None);
    assert_eq!(session.peer().port, 6881);
    assert_eq!(
        PeerStatus::default(),
        PeerStatus {
            choked: true,
            interested: false
        }
    );
}

#[test]
fn a_session_needs_an_info_hash_in_hexadecimal_digits() {
    let mut torrent = torrent(10, 1);
    torrent.info_hash = "info_hash".to_string();
    assert!(matches!(
        PeerSession::new(
            BtPeer::new("127.0.0.1".to_string(), 6881),
            torrent,
            config(5),
            client_id()
        ),
        Err(PeerSessionError::HandshakeError)
    ));
}

#[test]
fn a_session_needs_room_for_a_request_in_flight() {
    assert!(matches!(
        PeerSession::new(
            BtPeer::new("127.0.0.1".to_string(), 6881),
            torrent(81920, 32768),
            config(0),
            client_id()
        ),
        Err(PeerSessionError::InvalidPipeliningSize)
    ));
    // The width is looked at before the info hash.
    let mut unreadable = torrent(81920, 32768);
    unreadable.info_hash = "info_hash".to_string();
    assert!(matches!(
        PeerSession::new(
            BtPeer::new("127.0.0.1".to_string(), 6881),
            unreadable,
            config(0),
            client_id()
        ),
        Err(PeerSessionError::InvalidPipeliningSize)
    ));
    assert!(PeerSession::new(
        BtPeer::new("127.0.0.1".to_string(), 6881),
        torrent(81920, 32768),
        config(1),
        client_id()
    )
    .is_ok());
}

#[test]
fn a_session_for_an_empty_file() {
    let session = session(0, 32768, 5);
    assert_eq!(session.complete_blocks_in_torrent_piece(0), 2);
    assert_eq!(session.last_block_size(0), 0);
    assert_eq!(session.phase(), Phase::Start);
}

#[test]
fn outgoing_handshake() {
    let mut session = session(81920, 32768, 5);
    let step = session.start_outgoing_seeder().unwrap();
    assert_eq!(step.send, Handshake::new(info_hash(), client_id()).to_bytes());
    assert_eq!(step.next, Next::Read);
    assert_eq!(session.phase(), Phase::HandshakeSent);
    // Nothing but a handshake is expected now.
    assert_eq!(
        session.handle_message(None),
        Err(PeerSessionError::UnexpectedMessage)
    );
    assert_eq!(
        session.start_outgoing_seeder(),
        Err(PeerSessionError::UnexpectedMessage)
    );
    assert_eq!(session.receive_handshake(&peer_handshake()), Ok(read()));
    assert_eq!(session.phase(), Phase::Ready);
    assert_eq!(
        session.receive_handshake(&peer_handshake()),
        Err(PeerSessionError::UnexpectedMessage)
    );
}

#[test]
fn a_handshake_for_another_torrent_ends_the_session() {
    let mut session = session(81920, 32768, 5);
    session.start_outgoing_seeder().unwrap();
    let other = Handshake::new(vec![9; 20], b"-XX0001-111111111111".to_vec()).to_bytes();
    assert_eq!(
        session.receive_handshake(&other),
        Err(PeerSessionError::HandshakeError)
    );
    assert_eq!(
        session.receive_handshake(&peer_handshake()[..60]),
        Err(PeerSessionError::HandshakeError)
    );
    assert_eq!(session.phase(), Phase::HandshakeSent);
}

#[test]
fn interest_is_declared_once_and_pieces_asked_for_when_unchoked() {
    let mut session = session(81920, 32768, 5);
    session.start_outgoing_seeder().unwrap();
    session.receive_handshake(&peer_handshake()).unwrap();
    // A keep-alive is enough to say that we are interested.
    let step = session.handle_message(None).unwrap();
    assert_eq!(step.send, Message::new(MessageId::Interested, vec![]).to_bytes());
    assert_eq!(step.next, Next::Read);
    assert!(session.status().interested);
    assert!(session.status().choked);
    // Interested already: nothing more is said while choked.
    assert_eq!(session.handle_message(None), Ok(read()));
    assert_eq!(
        session.handle_message(Some(Message::new(MessageId::Bitfield, vec![0xE0]))),
        Ok(read())
    );
    assert_eq!(session.bitfield().bitfield, vec![0xE0]);
    assert_eq!(
        session.handle_message(Some(Message::new(MessageId::Have, vec![0, 0, 0, 1]))),
        Ok(read())
    );
    // No piece is selected for a session that is choked.
    assert_eq!(
        session.piece_selected(Some(0)),
        Err(PeerSessionError::UnexpectedMessage)
    );
    let step = session
        .handle_message(Some(Message::new(MessageId::Unchoke, vec![])))
        .unwrap();
    assert_eq!(step.next, Next::Select);
    assert!(!session.status().choked);
}

#[test]
fn blocks_of_each_piece() {
    // Pieces of two blocks; the last piece holds the bytes of one.
    let session = session(81920, 32768, 5);
    assert_eq!(session.complete_blocks_in_torrent_piece(0), 2);
    assert_eq!(session.complete_blocks_in_torrent_piece(1), 2);
    assert_eq!(session.last_block_size(0), 0);
    assert_eq!(session.last_block_size(2), 0);
    // A last piece that ends on a block is planned like every other piece.
    assert_eq!(session.complete_blocks_in_torrent_piece(2), 2);
    // A last piece of one block and 8080 bytes.
    let session = self::session(90000, 32768, 5);
    assert_eq!(session.complete_blocks_in_torrent_piece(1), 2);
    assert_eq!(session.complete_blocks_in_torrent_piece(2), 1);
    assert_eq!(session.last_block_size(1), 0);
    assert_eq!(session.last_block_size(2), 8080);
    // A last piece that is shorter than a block.
    let session = self::session(70000, 32768, 5);
    assert_eq!(session.complete_blocks_in_torrent_piece(2), 0);
    assert_eq!(session.last_block_size(2), 4464);
    // A single piece.
    let session = self::session(20000, 32768, 5);
    assert_eq!(session.complete_blocks_in_torrent_piece(0), 1);
    assert_eq!(session.last_block_size(0), 3616);
}

#[test]
fn a_piece_is_requested_in_windows() {
    // Pieces of seven blocks, five requests in flight.
    let mut session = unchoked(7 * 16384 * 3, 7 * 16384, 5);
    let step = session.piece_selected(Some(1)).unwrap();
    let mut first_window = vec![];
    for block in 0..5 {
        first_window.extend(request(1, block * 16384, 16384));
    }
    assert_eq!(step.send, first_window);
    assert_eq!(step.next, Next::Read);
    assert_eq!(session.phase(), Phase::Downloading);
    assert_eq!(session.piece_in_flight(), Some(1));

    // Four blocks arrive, with other messages in between: nothing is sent.
    for block in 0..4u32 {
        assert_eq!(
            session.handle_message(Some(piece_message(1, block * 16384, vec![block as u8; 16384]))),
            Ok(read())
        );
        assert_eq!(session.handle_message(None), Ok(read()));
        assert_eq!(
            session.handle_message(Some(Message::new(MessageId::Have, vec![0, 0, 0, 2]))),
            Ok(read())
        );
    }
    // The fifth block completes the window: the last two blocks are asked for.
    let step = session
        .handle_message(Some(piece_message(1, 4 * 16384, vec![4; 16384])))
        .unwrap();
    let mut second_window = request(1, 5 * 16384, 16384);
    second_window.extend(request(1, 6 * 16384, 16384));
    assert_eq!(step.send, second_window);
    assert_eq!(step.next, Next::Read);

    assert_eq!(
        session.handle_message(Some(piece_message(1, 5 * 16384, vec![5; 16384]))),
        Ok(read())
    );
    let step = session
        .handle_message(Some(piece_message(1, 6 * 16384, vec![6; 16384])))
        .unwrap();
    assert_eq!(
        step,
        Step {
            send: vec![],
            next: Next::Commit { index: 1 }
        }
    );
    let piece = session.take_piece();
    let expected: Vec<u8> = (0..7u8).flat_map(|block| vec![block; 16384]).collect();
    assert_eq!(piece, expected);

    // The piece was accepted: the next one is asked for.
    assert_eq!(
        session.piece_committed(Ok(())),
        Ok(Step {
            send: vec![],
            next: Next::Select
        })
    );
    assert_eq!(session.phase(), Phase::Ready);
    assert_eq!(session.piece_in_flight(), None);
}

#[test]
fn the_pipeline_width_is_the_window() {
    let mut session = unchoked(4 * 16384, 4 * 16384, 1);
    let step = session.piece_selected(Some(0)).unwrap();
    assert_eq!(step.send, request(0, 0, 16384));
    for block in 1..4u32 {
        let step = session
            .handle_message(Some(piece_message(0, (block - 1) * 16384, vec![1; 16384])))
            .unwrap();
        assert_eq!(step.send, request(0, block * 16384, 16384));
        assert_eq!(step.next, Next::Read);
    }
    let step = session
        .handle_message(Some(piece_message(0, 3 * 16384, vec![1; 16384])))
        .unwrap();
    assert_eq!(step.next, Next::Commit { index: 0 });
}

#[test]
fn the_last_piece_ends_with_a_short_block() {
    let mut session = unchoked(90000, 32768, 5);
    let step = session.piece_selected(Some(2)).unwrap();
    assert_eq!(step.send, request(2, 0, 16384));
    let step = session
        .handle_message(Some(piece_message(2, 0, vec![1; 16384])))
        .unwrap();
    // After the whole blocks the short one is asked for.
    assert_eq!(step.send, request(2, 16384, 8080));
    assert_eq!(step.next, Next::Read);
    let step = session
        .handle_message(Some(piece_message(2, 16384, vec![2; 8080])))
        .unwrap();
    assert_eq!(step.next, Next::Commit { index: 2 });
    let piece = session.take_piece();
    assert_eq!(piece.len(), 24464);
    assert_eq!(&piece[..16384], vec![1; 16384].as_slice());
    assert_eq!(&piece[16384..], vec![2; 8080].as_slice());
}

#[test]
fn a_last_piece_shorter_than_a_block_is_one_short_block() {
    let mut session = unchoked(70000, 32768, 5);
    let step = session.piece_selected(Some(2)).unwrap();
    assert_eq!(step.send, request(2, 0, 4464));
    let step = session
        .handle_message(Some(piece_message(2, 0, vec![3; 4464])))
        .unwrap();
    assert_eq!(step.next, Next::Commit { index: 2 });
    assert_eq!(session.take_piece(), vec![3; 4464]);
}

#[test]
fn a_single_piece_torrent_is_downloaded() {
    let mut session = unchoked(20000, 32768, 5);
    let step = session.piece_selected(Some(0)).unwrap();
    assert_eq!(step.send, request(0, 0, 16384));
    let step = session
        .handle_message(Some(piece_message(0, 0, vec![1; 16384])))
        .unwrap();
    assert_eq!(step.send, request(0, 16384, 3616));
    let step = session
        .handle_message(Some(piece_message(0, 16384, vec![2; 3616])))
        .unwrap();
    assert_eq!(step.next, Next::Commit { index: 0 });
    assert_eq!(session.take_piece().len(), 20000);
    assert_eq!(session.piece_committed(Ok(())).unwrap().next, Next::Select);
    // Nothing is left: the session is done.
    assert_eq!(
        session.piece_selected(None),
        Err(PeerSessionError::NoPiecesLeftToDownloadInThisPeer)
    );
}

#[test]
fn a_piece_with_the_wrong_digest_is_set_free_and_the_session_goes_on() {
    let mut session = unchoked(2 * 16384, 16384, 5);
    session.piece_selected(Some(1)).unwrap();
    let step = session
        .handle_message(Some(piece_message(1, 0, vec![1; 16384])))
        .unwrap();
    assert_eq!(step.next, Next::Commit { index: 1 });
    session.take_piece();
    assert_eq!(
        session.piece_committed(Err(AtomicTorrentStatusError::HashMismatch)),
        Ok(Step {
            send: vec![],
            next: Next::Abort { index: 1 }
        })
    );
    assert_eq!(session.piece_in_flight(), None);
    assert_eq!(
        session.piece_aborted(Ok(())),
        Ok(Step {
            send: vec![],
            next: Next::Select
        })
    );
    // The same piece is asked for again.
    let step = session.piece_selected(Some(1)).unwrap();
    assert_eq!(step.send, request(1, 0, 16384));
    let step = session
        .handle_message(Some(piece_message(1, 0, vec![1; 16384])))
        .unwrap();
    assert_eq!(step.next, Next::Commit { index: 1 });
    session.take_piece();
    // It is wrong again: the piece is set free, and the session is done
    // with this peer.
    assert_eq!(
        session.piece_committed(Err(AtomicTorrentStatusError::HashMismatch)),
        Ok(Step {
            send: vec![],
            next: Next::Abort { index: 1 }
        })
    );
    assert_eq!(
        session.piece_aborted(Ok(())),
        Err(PeerSessionError::NoPiecesLeftToDownloadInThisPeer)
    );
}

#[test]
fn a_session_stalls_only_on_the_same_piece_twice_running() {
    let mut session = unchoked(3 * 16384, 16384, 5);
    let mut download = |session: &mut PeerSession, index: u32| {
        session.piece_selected(Some(index)).unwrap();
        let step = session
            .handle_message(Some(piece_message(index, 0, vec![1; 16384])))
            .unwrap();
        assert_eq!(step.next, Next::Commit { index });
        session.take_piece();
    };
    let wrong = Err(AtomicTorrentStatusError::HashMismatch);
    // Piece 0 fails, then piece 1 fails: two different pieces.
    download(&mut session, 0);
    assert_eq!(session.piece_committed(wrong).unwrap().next, Next::Abort { index: 0 });
    assert_eq!(session.piece_aborted(Ok(())).unwrap().next, Next::Select);
    download(&mut session, 1);
    assert_eq!(session.piece_committed(wrong).unwrap().next, Next::Abort { index: 1 });
    assert_eq!(session.piece_aborted(Ok(())).unwrap().next, Next::Select);
    // Piece 2 is accepted, which forgets the failure of piece 1.
    download(&mut session, 2);
    assert_eq!(session.piece_committed(Ok(())).unwrap().next, Next::Select);
    download(&mut session, 1);
    assert_eq!(session.piece_committed(wrong).unwrap().next, Next::Abort { index: 1 });
    assert_eq!(session.piece_aborted(Ok(())).unwrap().next, Next::Select);
    // Piece 1 fails once more, right after it failed.
    download(&mut session, 1);
    assert_eq!(session.piece_committed(wrong).unwrap().next, Next::Abort { index: 1 });
    assert_eq!(
        session.piece_aborted(Ok(())),
        Err(PeerSessionError::NoPiecesLeftToDownloadInThisPeer)
    );
}

#[test]
fn other_refusals_end_the_session_with_the_piece_in_flight() {
    let mut session = unchoked(2 * 16384, 16384, 5);
    session.piece_selected(Some(0)).unwrap();
    session
        .handle_message(Some(piece_message(0, 0, vec![1; 16384])))
        .unwrap();
    assert_eq!(
        session.piece_committed(Err(AtomicTorrentStatusError::SavePieceError)),
        Err(PeerSessionError::ErrorNotifyingPieceDownloaded(
            AtomicTorrentStatusError::SavePieceError
        ))
    );
    assert_eq!(session.piece_in_flight(), Some(0));
    let mut session = unchoked(2 * 16384, 16384, 5);
    assert_eq!(
        session.piece_aborted(Err(AtomicTorrentStatusError::InvalidPieceIndex)),
        Err(PeerSessionError::ErrorAbortingPiece(
            AtomicTorrentStatusError::InvalidPieceIndex
        ))
    );
}

#[test]
fn a_commit_is_not_taken_before_the_piece_is_complete() {
    let mut session = unchoked(4 * 16384, 2 * 16384, 5);
    assert_eq!(
        session.piece_committed(Ok(())),
        Err(PeerSessionError::UnexpectedMessage)
    );
    session.piece_selected(Some(0)).unwrap();
    assert_eq!(
        session.piece_committed(Ok(())),
        Err(PeerSessionError::UnexpectedMessage)
    );
    session
        .handle_message(Some(piece_message(0, 0, vec![1; 16384])))
        .unwrap();
    assert_eq!(
        session.piece_committed(Ok(())),
        Err(PeerSessionError::UnexpectedMessage)
    );
    assert_eq!(
        session.piece_aborted(Ok(())),
        Err(PeerSessionError::UnexpectedMessage)
    );
}

#[test]
fn malformed_payloads_end_the_session() {
    let mut session = unchoked(2 * 16384, 16384, 5);
    assert_eq!(
        session.handle_message(Some(Message::new(MessageId::Piece, vec![0; 7]))),
        Err(PeerSessionError::MessageError(MessageId::Piece))
    );
    assert_eq!(
        session.handle_message(Some(Message::new(MessageId::Request, vec![0; 11]))),
        Err(PeerSessionError::MessageError(MessageId::Request))
    );
    assert_eq!(
        session.handle_message(Some(Message::new(MessageId::Cancel, vec![0; 12]))),
        Ok(Step {
            send: vec![],
            next: Next::Select
        })
    );
}

#[test]
fn a_block_that_was_not_asked_for_is_not_kept() {
    let mut session = unchoked(2 * 16384, 16384, 5);
    assert_eq!(
        session
            .handle_message(Some(piece_message(0, 0, vec![1; 16384])))
            .unwrap()
            .next,
        Next::Select
    );
    assert_eq!(session.take_piece(), Vec::<u8>::new());
}

#[test]
fn incoming_seeder() {
    let mut session = session(81920, 32768, 5);
    let held = Bitfield::new(vec![0xE0]);
    let step = session
        .handshake_incoming_leecher(&peer_handshake(), &held)
        .unwrap();
    let mut expected = Handshake::new(info_hash(), client_id()).to_bytes();
    expected.extend(Message::new(MessageId::Bitfield, vec![0xE0]).to_bytes());
    assert_eq!(step.send, expected);
    assert_eq!(step.next, Next::Read);
    assert_eq!(session.phase(), Phase::AwaitingInterest);

    assert_eq!(session.handle_message(None), Ok(read()));
    let step = session
        .handle_message(Some(Message::new(MessageId::Interested, vec![])))
        .unwrap();
    assert_eq!(step.send, Message::new(MessageId::Unchoke, vec![]).to_bytes());
    assert_eq!(step.send, vec![0, 0, 0, 1, 1]);
    assert_eq!(session.phase(), Phase::Serving);
    assert!(session.status().peer_interested);
    assert!(!session.status().peer_choked);

    let step = session
        .handle_message(Some(Message::new(
            MessageId::Request,
            Request::new(0, 0, 16384).to_bytes(),
        )))
        .unwrap();
    assert_eq!(
        step,
        Step {
            send: vec![],
            next: Next::Serve {
                index: 0,
                begin: 0,
                offset: 0,
                length: 16384
            }
        }
    );
    let block: Vec<u8> = (0..16384u32).map(|i| i as u8).collect();
    let step = session.send_piece(0, 0, &block).unwrap();
    assert_eq!(step.send, piece_message(0, 0, block.clone()).to_bytes());
    assert_eq!(step.next, Next::Read);
    let sent = Message::decode(&step.send).unwrap().unwrap();
    assert_eq!(sent.id, MessageId::Piece);
    assert_eq!(
        Block::from_bytes(&sent.payload),
        Some(Block {
            index: 0,
            begin: 0,
            block
        })
    );
    // A serving session neither declares interest nor asks for pieces.
    assert_eq!(
        session.handle_message(Some(Message::new(MessageId::Unchoke, vec![]))),
        Ok(read())
    );
}

#[test]
fn a_request_is_served_at_its_offset_in_the_file() {
    let mut session = session(81920, 32768, 5);
    session
        .handshake_incoming_leecher(&peer_handshake(), &Bitfield::new(vec![0xE0]))
        .unwrap();
    let step = session
        .handle_message(Some(Message::new(
            MessageId::Request,
            Request::new(2, 16384, 100).to_bytes(),
        )))
        .unwrap();
    assert_eq!(
        step.next,
        Next::Serve {
            index: 2,
            begin: 16384,
            offset: 2 * 32768 + 16384,
            length: 100
        }
    );
    // The offset does not wrap where index and begin are large.
    let step = session
        .handle_message(Some(Message::new(
            MessageId::Request,
            Request::new(u32::MAX, u32::MAX, 1).to_bytes(),
        )))
        .unwrap();
    assert_eq!(
        step.next,
        Next::Serve {
            index: u32::MAX,
            begin: u32::MAX,
            offset: u32::MAX as u64 * 32768 + u32::MAX as u64,
            length: 1
        }
    );
}

#[test]
fn a_peer_that_is_not_interested_ends_the_session() {
    let mut session = session(81920, 32768, 5);
    session
        .handshake_incoming_leecher(&peer_handshake(), &Bitfield::new(vec![0xE0]))
        .unwrap();
    assert_eq!(
        session.handle_message(Some(Message::new(MessageId::NotInterested, vec![]))),
        Err(PeerSessionError::PeerNotInterested)
    );
    // After it was unchoked, the peer may lose interest.
    session
        .handle_message(Some(Message::new(MessageId::Interested, vec![])))
        .unwrap();
    assert_eq!(
        session.handle_message(Some(Message::new(MessageId::NotInterested, vec![]))),
        Ok(read())
    );
    assert!(!session.status().peer_interested);
}

#[test]
fn incoming_handshake_for_another_torrent() {
    let mut session = session(81920, 32768, 5);
    let other = Handshake::new(vec![9; 20], b"-XX0001-111111111111".to_vec()).to_bytes();
    assert_eq!(
        session.handshake_incoming_leecher(&other, &Bitfield::new(vec![0xE0])),
        Err(PeerSessionError::HandshakeError)
    );
    assert_eq!(
        session.handshake_incoming_leecher(&[1, 2, 3], &Bitfield::new(vec![0xE0])),
        Err(PeerSessionError::HandshakeError)
    );
    assert_eq!(session.phase(), Phase::Start);
    assert_eq!(
        session.send_piece(0, 0, &[1]),
        Err(PeerSessionError::UnexpectedMessage)
    );
}

#[test]
fn frames_longer_than_ten_blocks_are_refused() {
    assert_eq!(Message::frame_length(&163840u32.to_be_bytes()), Ok(163840));
    assert_eq!(
        Message::frame_length(&163841u32.to_be_bytes()),
        Err(FromMessageError::OversizePayload)
    );
}

/// The bytes of a piece as the seeder of the scenarios holds them.
fn seeded(index: u32, length: usize) -> Vec<u8> {
    (0..length).map(|i| (i as u32 * 13 + index * 17) as u8).collect()
}

/// The piece messages that answer the requests among the bytes that a step
/// sends, from what a seeder holds of each piece.
fn answers(sent: &[u8], held: &dyn Fn(u32) -> Vec<u8>) -> Vec<Message> {
    let mut answers = vec![];
    let mut at = 0;
    while at < sent.len() {
        let length = Message::frame_length(&sent[at..at + 4]).unwrap() as usize;
        let message = Message::decode(&sent[at..at + 4 + length]).unwrap().unwrap();
        if message.id == MessageId::Request {
            let request = Request::from_bytes(&message.payload).unwrap();
            let piece = held(request.index);
            let begin = request.begin as usize;
            let block = piece[begin..begin + request.length as usize].to_vec();
            answers.push(piece_message(request.index, request.begin, block));
        }
        at += 4 + length;
    }
    answers
}

/// Runs a session against a status and a seeder until the session ends,
/// and gives the error that ended it with the bytes that were written.
fn download_from(
    session: &mut PeerSession,
    status: &mut AtomicTorrentStatus,
    held: &dyn Fn(u32) -> Vec<u8>,
    file: &mut Vec<u8>,
) -> PeerSessionError {
    let mut step = Step {
        send: vec![],
        next: Next::Select,
    };
    let mut arriving: Vec<Message> = vec![];
    for _ in 0..1000 {
        arriving.extend(answers(&step.send, held));
        let answer = match step.next {
            Next::Read => session.handle_message(Some(arriving.remove(0))),
            Next::Select => {
                let picked = status.select_piece(session.bitfield()).unwrap();
                session.piece_selected(picked)
            }
            Next::Commit { index } => {
                let piece = session.take_piece();
                let outcome = match status.piece_downloaded(index, piece) {
                    Ok(PieceCommit::AlreadyFinished) => Ok(()),
                    Ok(PieceCommit::Save {
                        name: _,
                        offset,
                        piece,
                    }) => {
                        let end = offset as usize + piece.len();
                        if file.len() < end {
                            file.resize(end, 0);
                        }
                        file[offset as usize..end].copy_from_slice(&piece);
                        status.piece_saved(true)
                    }
                    Err(error) => Err(error),
                };
                session.piece_committed(outcome)
            }
            Next::Abort { index } => {
                let outcome = status.piece_aborted(index);
                session.piece_aborted(outcome)
            }
            Next::Serve { .. } => panic!("nothing was asked of us"),
        };
        step = match answer {
            Ok(step) => step,
            Err(error) => return error,
        };
    }
    panic!("the session did not end");
}

fn scenario_torrent(length: i64, piece_length: i64) -> Torrent {
    let total = ((length + piece_length - 1) / piece_length) as u32;
    let mut pieces = vec![];
    for index in 0..total {
        let size = if index == total - 1 {
            (length - (total as i64 - 1) * piece_length) as usize
        } else {
            piece_length as usize
        };
        pieces.extend(Sha1::digest(seeded(index, size)).to_vec());
    }
    let mut torrent = torrent(length, piece_length);
    torrent.info.pieces = pieces;
    torrent
}

fn scenario_session(torrent: &Torrent) -> PeerSession {
    let mut session = PeerSession::new(
        BtPeer::new("127.0.0.1".to_string(), 6881),
        torrent.clone(),
        config(5),
        client_id(),
    )
    .unwrap();
    session.start_outgoing_seeder().unwrap();
    session.receive_handshake(&peer_handshake()).unwrap();
    session
        .handle_message(Some(Message::new(MessageId::Bitfield, vec![0xE0])))
        .unwrap();
    session
        .handle_message(Some(Message::new(MessageId::Unchoke, vec![])))
        .unwrap();
    session
}

#[test]
fn a_torrent_of_three_pieces_is_downloaded_from_one_seeder() {
    // Three pieces of two blocks, the last with a short block at its end.
    let torrent = scenario_torrent(2 * 32768 + 20000, 32768);
    let mut status = AtomicTorrentStatus::new(&torrent, config(5));
    let mut session = scenario_session(&torrent);
    let held = |index: u32| seeded(index, if index == 2 { 20000 } else { 32768 });
    let mut file = vec![];
    let end = download_from(&mut session, &mut status, &held, &mut file);
    assert_eq!(end, PeerSessionError::NoPiecesLeftToDownloadInThisPeer);
    assert!(status.is_finished());
    assert_eq!(status.counters(), (0, 0, 3));
    let served: Vec<u8> = (0..3).flat_map(|index| held(index)).collect();
    assert_eq!(file, served);
    assert_eq!(session.piece_in_flight(), None);
}

#[test]
fn a_seeder_that_flips_a_byte_of_a_piece_is_given_up() {
    let torrent = scenario_torrent(2 * 32768 + 20000, 32768);
    let mut status = AtomicTorrentStatus::new(&torrent, config(5));
    let mut session = scenario_session(&torrent);
    let held = |index: u32| {
        let mut piece = seeded(index, if index == 2 { 20000 } else { 32768 });
        if index == 1 {
            piece[5000] ^= 0x40;
        }
        piece
    };
    let mut file = vec![];
    let end = download_from(&mut session, &mut status, &held, &mut file);
    // Piece 0 is written; piece 1 is asked for twice and never finished.
    assert_eq!(end, PeerSessionError::NoPiecesLeftToDownloadInThisPeer);
    assert_eq!(status.piece_status(0), Some(PieceStatus::Finished));
    assert_eq!(status.piece_status(1), Some(PieceStatus::Free));
    assert_eq!(status.piece_status(2), Some(PieceStatus::Free));
    assert_eq!(status.counters(), (2, 0, 1));
    assert_eq!(file, seeded(0, 32768));
    assert!(!status.is_finished());
}
