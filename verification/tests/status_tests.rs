use dtorrent::config::cfg::Cfg;
use dtorrent::peer::bitfield::Bitfield;
use dtorrent::torrent_handler::piece_status::PieceStatus;
use dtorrent::torrent_handler::status::{
    AtomicTorrentStatus, AtomicTorrentStatusError, PieceCommit,
};
use dtorrent::torrent_parser::info::Info;
use dtorrent::torrent_parser::torrent::Torrent;
use sha1::{Digest, Sha1};

fn test_config() -> Cfg {
    Cfg {
        tcp_port: 6881,
        log_directory: "./logs".to_string(),
        download_directory: "./downloads".to_string(),
        pipelining_size: 5,
        read_write_seconds_timeout: 120,
        max_peers_per_torrent: 2,
        max_log_file_kb_size: 100,
    }
}

fn create_test_torrent(name: &str) -> Torrent {
    let info = Info {
        length: 10,
        name: name.to_string(),
        piece_length: 1,
        pieces: vec![],
    };

    Torrent {
        announce_url: "announce".to_string(),
        info,
        info_hash: "info_hash".to_string(),
    }
}

fn piece_bytes(index: u32, length: usize) -> Vec<u8> {
    (0..length).map(|i| (i as u32 * 7 + index * 31) as u8).collect()
}

fn torrent_with_pieces(name: &str, length: i64, piece_length: i64) -> Torrent {
    let total = ((length + piece_length - 1) / piece_length) as u32;
    let mut pieces = vec![];
    for index in 0..total {
        let size = if index == total - 1 {
            (length - (total as i64 - 1) * piece_length) as usize
        } else {
            piece_length as usize
        };
        pieces.extend(Sha1::digest(piece_bytes(index, size)).to_vec());
    }
    Torrent {
        announce_url: "announce".to_string(),
        info: Info {
            length,
            name: name.to_string(),
            piece_length,
            pieces,
        },
        info_hash: "2c6b6858d61da9543d4231a71db4b1c9264b0685".to_string(),
    }
}

fn counters(status: &AtomicTorrentStatus) -> (usize, usize, usize) {
    (
        status.free_pieces(),
        status.downloading_pieces(),
        status.downloaded_pieces(),
    )
}

fn commit(status: &mut AtomicTorrentStatus, index: u32, piece: Vec<u8>) {
    match status.piece_downloaded(index, piece.clone()).unwrap() {
        PieceCommit::Save {
            name: _,
            offset: _,
            piece: bytes,
        } => {
            assert_eq!(bytes, piece);
            status.piece_saved(true).unwrap();
        }
        PieceCommit::AlreadyFinished => {}
    }
}

#[test]
fn test_is_not_finished() {
    let torrent = create_test_torrent("test_is_not_finished");

    let status = AtomicTorrentStatus::new(&torrent, test_config());
    assert!(!status.is_finished());
}

#[test]
fn test_starting_current_peers() {
    let torrent = create_test_torrent("test_starting_current_peers");

    let status = AtomicTorrentStatus::new(&torrent, test_config());
    assert_eq!(0, status.current_peers());
}

#[test]
fn test_peer_connected() {
    let torrent = create_test_torrent("test_peer_connected");

    let mut status = AtomicTorrentStatus::new(&torrent, test_config());
    status.peer_connected();
    assert_eq!(1, status.current_peers());
}

#[test]
fn test_peer_disconnected() {
    let torrent = create_test_torrent("test_peer_disconnected");

    let mut status = AtomicTorrentStatus::new(&torrent, test_config());
    status.peer_connected();
    status.peer_connected();
    status.peer_disconnected().unwrap();
    assert_eq!(1, status.current_peers());
}

#[test]
fn test_peer_disconnected_error() {
    let torrent = create_test_torrent("test_peer_disconnected_error");

    let mut status = AtomicTorrentStatus::new(&torrent, test_config());
    assert!(status.peer_disconnected().is_err());
}

#[test]
fn test_select_piece() {
    let torrent = create_test_torrent("test_piece_downloaded");

    let mut status = AtomicTorrentStatus::new(&torrent, test_config());
    let index = status
        .select_piece(&Bitfield::new(vec![0b11111111, 0b11111111]))
        .unwrap()
        .unwrap();
    assert_eq!(
        status.piece_status(index).unwrap(),
        PieceStatus::Downloading
    );
}

#[test]
fn test_no_pieces_to_select() {
    let torrent = create_test_torrent("test_no_pieces_to_select");

    let mut status = AtomicTorrentStatus::new(&torrent, test_config());
    let index = status
        .select_piece(&Bitfield::new(vec![0b00000000, 0b00000000]))
        .unwrap();
    assert!(index.is_none());
}

#[test]
fn test_piece_aborted() {
    let torrent = create_test_torrent("test_piece_aborted");

    let mut status = AtomicTorrentStatus::new(&torrent, test_config());
    let index = status
        .select_piece(&Bitfield::new(vec![0b11111111, 0b11111111]))
        .unwrap()
        .unwrap();
    status.piece_aborted(index).unwrap();
    assert_eq!(status.piece_status(index).unwrap(), PieceStatus::Free);
}

#[test]
fn test_bad_index() {
    let torrent = create_test_torrent("test_bad_index");

    let mut status = AtomicTorrentStatus::new(&torrent, test_config());
    let index = 1000;
    assert!(status.piece_downloaded(index, vec![]).is_err());
}

#[test]
fn test_bad_downloaded() {
    let torrent = create_test_torrent("test_bad_downloaded");

    let mut status = AtomicTorrentStatus::new(&torrent, test_config());
    let index = 0;
    assert!(status.piece_downloaded(index, vec![]).is_err());
}

#[test]
fn test_bad_abort() {
    let torrent = create_test_torrent("test_bad_abort");

    let mut status = AtomicTorrentStatus::new(&torrent, test_config());
    let index = 0;
    assert!(status.piece_aborted(index).is_err());
}

#[test]
fn test_downloading_pieces() {
    let torrent = create_test_torrent("test_downloading_pieces");

    let mut status = AtomicTorrentStatus::new(&torrent, test_config());

    let _ = status
        .select_piece(&Bitfield::new(vec![0b11111111, 0b11111111]))
        .unwrap()
        .unwrap();

    assert_eq!(status.downloading_pieces(), 1);
}

#[test]
fn errors_name_what_went_wrong() {
    let torrent = create_test_torrent("errors");
    let mut status = AtomicTorrentStatus::new(&torrent, test_config());
    assert_eq!(
        status.piece_downloaded(1000, vec![]).unwrap_err(),
        AtomicTorrentStatusError::InvalidPieceIndex
    );
    assert_eq!(
        status.piece_downloaded(0, vec![]).unwrap_err(),
        AtomicTorrentStatusError::PieceWasNotDownloading
    );
    assert_eq!(
        status.piece_aborted(10),
        Err(AtomicTorrentStatusError::InvalidPieceIndex)
    );
    assert_eq!(
        status.piece_aborted(0),
        Err(AtomicTorrentStatusError::PieceWasNotDownloading)
    );
    assert_eq!(
        status.peer_disconnected(),
        Err(AtomicTorrentStatusError::NoPeersConnected)
    );
    assert_eq!(
        status.get_piece(10, 0, 1).unwrap_err(),
        AtomicTorrentStatusError::InvalidPieceIndex
    );
    assert_eq!(
        status.get_piece(0, 0, 1).unwrap_err(),
        AtomicTorrentStatusError::PieceWasNotFinished
    );
    assert_eq!(
        status.piece_saved(true),
        Err(AtomicTorrentStatusError::PieceWasNotDownloading)
    );
    // The metainfo of this torrent holds no digest: nothing can match.
    let index = status
        .select_piece(&Bitfield::new(vec![0xFF, 0xFF]))
        .unwrap()
        .unwrap();
    assert_eq!(
        status.piece_downloaded(index, vec![]).unwrap_err(),
        AtomicTorrentStatusError::HashMismatch
    );
    assert_eq!(status.piece_status(index), Some(PieceStatus::Downloading));
}

#[test]
fn counters_add_up_at_every_point() {
    let torrent = torrent_with_pieces("counters", 10, 3);
    let mut status = AtomicTorrentStatus::new(&torrent, test_config());
    let all = Bitfield::new(vec![0xFF]);
    let total = 4;
    assert_eq!(status.total_pieces(), 4);
    assert_eq!(counters(&status), (4, 0, 0));

    let first = status.select_piece(&all).unwrap().unwrap();
    assert_eq!(first, 0);
    assert_eq!(counters(&status), (3, 1, 0));
    let second = status.select_piece(&all).unwrap().unwrap();
    assert_eq!(second, 1);
    assert_eq!(counters(&status), (2, 2, 0));

    status.piece_aborted(first).unwrap();
    assert_eq!(counters(&status), (3, 1, 0));

    commit(&mut status, second, piece_bytes(1, 3));
    assert_eq!(counters(&status), (3, 0, 1));
    assert_eq!(status.remaining_pieces(), 3);

    // A wrong piece changes nothing.
    let again = status.select_piece(&all).unwrap().unwrap();
    assert_eq!(again, 0);
    assert_eq!(
        status.piece_downloaded(again, vec![1, 2, 3]).unwrap_err(),
        AtomicTorrentStatusError::HashMismatch
    );
    assert_eq!(counters(&status), (2, 1, 1));
    let (free, downloading, finished) = counters(&status);
    assert_eq!(free + downloading + finished, total);
}

#[test]
fn select_piece_takes_the_lowest_free_piece_that_is_offered() {
    let torrent = torrent_with_pieces("lowest", 10, 1);
    let mut status = AtomicTorrentStatus::new(&torrent, test_config());
    // The peer holds pieces 2, 5 and 9.
    let offered = Bitfield::new(vec![0b0010_0100, 0b0100_0000]);
    assert_eq!(status.select_piece(&offered), Ok(Some(2)));
    assert_eq!(status.select_piece(&offered), Ok(Some(5)));
    assert_eq!(status.select_piece(&offered), Ok(Some(9)));
    assert_eq!(status.select_piece(&offered), Ok(None));
    assert_eq!(counters(&status), (7, 3, 0));
    // A short bitfield offers nothing past its end.
    assert_eq!(
        status.select_piece(&Bitfield::new(vec![0b1010_0000])),
        Ok(Some(0))
    );
    assert_eq!(status.select_piece(&Bitfield::new(vec![])), Ok(None));
}

#[test]
fn select_piece_from_returns_the_drawn_piece_in_the_end_game() {
    let torrent = torrent_with_pieces("drawn", 4, 1);
    let mut status = AtomicTorrentStatus::new(&torrent, test_config());
    let all = Bitfield::new(vec![0xF0]);
    for expected in 0..4 {
        assert_eq!(status.select_piece_from(&all, Some(3)), Some(expected));
    }
    commit(&mut status, 1, piece_bytes(1, 1));
    assert_eq!(counters(&status), (0, 3, 1));
    // No free piece: the drawn index is returned while it is downloading.
    assert_eq!(status.select_piece_from(&all, Some(2)), Some(2));
    assert_eq!(status.select_piece_from(&all, Some(1)), None);
    assert_eq!(status.select_piece_from(&all, Some(4)), None);
    assert_eq!(status.select_piece_from(&all, None), None);
    // Not even the bitfield is looked at.
    assert_eq!(
        status.select_piece_from(&Bitfield::new(vec![]), Some(0)),
        Some(0)
    );
    assert_eq!(counters(&status), (0, 3, 1));
}

#[test]
fn end_game_returns_the_one_piece_that_is_left() {
    let torrent = torrent_with_pieces("end_game", 4, 1);
    let mut status = AtomicTorrentStatus::new(&torrent, test_config());
    let all = Bitfield::new(vec![0xF0]);
    let picked: Vec<u32> = (0..4)
        .map(|_| status.select_piece(&all).unwrap().unwrap())
        .collect();
    assert_eq!(picked, vec![0, 1, 2, 3]);
    for index in 0..3 {
        commit(&mut status, index, piece_bytes(index, 1));
    }
    assert_eq!(counters(&status), (0, 1, 3));
    // A fifth session is handed the piece that is still downloading.
    for _ in 0..20 {
        assert_eq!(status.select_piece(&all), Ok(Some(3)));
    }
    assert_eq!(counters(&status), (0, 1, 3));
    // The first to commit wins.
    commit(&mut status, 3, piece_bytes(3, 1));
    assert!(status.is_finished());
    // The second commit changes nothing and succeeds.
    assert!(matches!(
        status.piece_downloaded(3, piece_bytes(3, 1)),
        Ok(PieceCommit::AlreadyFinished)
    ));
    assert_eq!(status.piece_aborted(3), Ok(()));
    assert_eq!(counters(&status), (0, 0, 4));
    assert_eq!(status.select_piece(&all), Ok(None));
}

#[test]
fn end_game_picks_among_the_downloading_pieces() {
    let torrent = torrent_with_pieces("end_game_many", 6, 1);
    let mut status = AtomicTorrentStatus::new(&torrent, test_config());
    let all = Bitfield::new(vec![0xFC]);
    for _ in 0..6 {
        status.select_piece(&all).unwrap().unwrap();
    }
    commit(&mut status, 0, piece_bytes(0, 1));
    commit(&mut status, 4, piece_bytes(4, 1));
    for _ in 0..50 {
        let picked = status.select_piece(&Bitfield::new(vec![])).unwrap().unwrap();
        assert!([1, 2, 3, 5].contains(&picked));
    }
    assert_eq!(counters(&status), (0, 4, 2));
}

#[test]
fn three_piece_torrent_from_one_seeder() {
    let torrent = torrent_with_pieces("three", 81920, 32768);
    assert_eq!(torrent.total_pieces(), 3);
    assert_eq!(torrent.last_piece_size(), 16384);
    let mut status = AtomicTorrentStatus::new(&torrent, test_config());
    let offered = Bitfield::new(vec![0xE0]);
    let mut file = vec![0u8; 81920];
    for expected in 0..3u32 {
        let index = status.select_piece(&offered).unwrap().unwrap();
        assert_eq!(index, expected);
        let size = if index == 2 { 16384 } else { 32768 };
        match status
            .piece_downloaded(index, piece_bytes(index, size))
            .unwrap()
        {
            PieceCommit::Save {
                name,
                offset,
                piece,
            } => {
                assert_eq!(name, "three");
                assert_eq!(offset, index as u64 * 32768);
                file[offset as usize..offset as usize + piece.len()].copy_from_slice(&piece);
            }
            PieceCommit::AlreadyFinished => panic!("nothing was finished"),
        }
        status.piece_saved(true).unwrap();
    }
    assert_eq!(counters(&status), (0, 0, 3));
    assert!(status.is_finished());
    assert_eq!(status.remaining_pieces(), 0);
    let served: Vec<u8> = (0..3u32)
        .flat_map(|index| piece_bytes(index, if index == 2 { 16384 } else { 32768 }))
        .collect();
    assert_eq!(file, served);
    assert_eq!(status.get_bitfield().unwrap().bitfield, vec![0xE0]);
    assert_eq!(status.select_piece(&offered), Ok(None));
}

#[test]
fn a_bad_piece_is_never_finished() {
    let torrent = torrent_with_pieces("bad_piece", 81920, 32768);
    let mut status = AtomicTorrentStatus::new(&torrent, test_config());
    let offered = Bitfield::new(vec![0xE0]);
    assert_eq!(status.select_piece(&offered), Ok(Some(0)));
    commit(&mut status, 0, piece_bytes(0, 32768));
    for _ in 0..3 {
        assert_eq!(status.select_piece(&offered), Ok(Some(1)));
        let mut bad = piece_bytes(1, 32768);
        bad[100] ^= 1;
        assert_eq!(
            status.piece_downloaded(1, bad).unwrap_err(),
            AtomicTorrentStatusError::HashMismatch
        );
        assert_eq!(status.piece_status(1), Some(PieceStatus::Downloading));
        status.piece_aborted(1).unwrap();
        assert_eq!(status.piece_status(1), Some(PieceStatus::Free));
    }
    assert_eq!(counters(&status), (2, 0, 1));
    assert!(!status.is_finished());
    assert_eq!(status.get_bitfield().unwrap().bitfield, vec![0x80]);
}

#[test]
fn single_piece_torrent() {
    let torrent = torrent_with_pieces("single", 20000, 32768);
    assert_eq!(torrent.total_pieces(), 1);
    assert_eq!(torrent.last_piece_size(), 20000);
    let mut status = AtomicTorrentStatus::new(&torrent, test_config());
    assert_eq!(status.select_piece(&Bitfield::new(vec![0x80])), Ok(Some(0)));
    commit(&mut status, 0, piece_bytes(0, 20000));
    assert!(status.is_finished());
    assert_eq!(counters(&status), (0, 0, 1));
    assert_eq!(status.get_bitfield().unwrap().bitfield, vec![0x80]);
}

#[test]
fn a_failed_write_leaves_the_piece_downloading() {
    let torrent = torrent_with_pieces("failed_write", 4, 2);
    let mut status = AtomicTorrentStatus::new(&torrent, test_config());
    let all = Bitfield::new(vec![0xC0]);
    assert_eq!(status.select_piece(&all), Ok(Some(0)));
    assert!(matches!(
        status.piece_downloaded(0, piece_bytes(0, 2)),
        Ok(PieceCommit::Save { .. })
    ));
    assert_eq!(
        status.piece_saved(false),
        Err(AtomicTorrentStatusError::SavePieceError)
    );
    assert_eq!(status.piece_status(0), Some(PieceStatus::Downloading));
    assert_eq!(counters(&status), (1, 1, 0));
    // Nothing waits any more.
    assert_eq!(
        status.piece_saved(true),
        Err(AtomicTorrentStatusError::PieceWasNotDownloading)
    );
    commit(&mut status, 0, piece_bytes(0, 2));
    assert_eq!(status.piece_status(0), Some(PieceStatus::Finished));
}

#[test]
fn a_piece_set_free_before_its_write_is_reported_is_not_finished() {
    let torrent = torrent_with_pieces("freed", 4, 2);
    let mut status = AtomicTorrentStatus::new(&torrent, test_config());
    let all = Bitfield::new(vec![0xC0]);
    assert_eq!(status.select_piece(&all), Ok(Some(0)));
    status.piece_downloaded(0, piece_bytes(0, 2)).unwrap();
    status.piece_aborted(0).unwrap();
    assert_eq!(
        status.piece_saved(true),
        Err(AtomicTorrentStatusError::PieceWasNotDownloading)
    );
    assert_eq!(status.piece_status(0), Some(PieceStatus::Free));
    assert_eq!(counters(&status), (2, 0, 0));
}

#[test]
fn piece_downloaded_with_digest_goes_by_the_digest() {
    let torrent = torrent_with_pieces("digest", 4, 2);
    let mut status = AtomicTorrentStatus::new(&torrent, test_config());
    let all = Bitfield::new(vec![0xC0]);
    assert_eq!(status.select_piece(&all), Ok(Some(0)));
    let piece = piece_bytes(0, 2);
    let digest = Sha1::digest(&piece).to_vec();
    assert_eq!(digest, torrent.info.pieces[0..20].to_vec());
    let wrong = vec![5, 5];
    let wrong_digest = Sha1::digest(&wrong).to_vec();
    assert_eq!(
        status
            .piece_downloaded_with_digest(0, wrong, &wrong_digest)
            .unwrap_err(),
        AtomicTorrentStatusError::HashMismatch
    );
    assert!(matches!(
        status.piece_downloaded_with_digest(0, piece, &digest),
        Ok(PieceCommit::Save { offset: 0, .. })
    ));
    // The digest of piece 0 is not the digest of piece 1.
    assert_eq!(status.select_piece(&all), Ok(Some(1)));
    assert_eq!(
        status
            .piece_downloaded_with_digest(1, piece_bytes(0, 2), &digest)
            .unwrap_err(),
        AtomicTorrentStatusError::HashMismatch
    );
}

#[test]
fn get_piece_says_where_to_read() {
    let torrent = torrent_with_pieces("read", 81920, 32768);
    let mut status = AtomicTorrentStatus::new(&torrent, test_config());
    let offered = Bitfield::new(vec![0xE0]);
    for index in 0..3u32 {
        status.select_piece(&offered).unwrap().unwrap();
        commit(
            &mut status,
            index,
            piece_bytes(index, if index == 2 { 16384 } else { 32768 }),
        );
    }
    let read = status.get_piece(0, 0, 16384).unwrap();
    assert_eq!(read.name, "read");
    assert_eq!(read.offset, 0);
    assert_eq!(read.length, 16384);
    // The last block of the file.
    let read = status.get_piece(2, 65536, 16384).unwrap();
    assert_eq!((read.offset, read.length), (65536, 16384));
    // One byte more lies outside the file.
    assert_eq!(
        status.get_piece(2, 65536, 16385).unwrap_err(),
        AtomicTorrentStatusError::RetrievingPieceError
    );
    assert_eq!(
        status.get_piece(2, 81921, 0).unwrap_err(),
        AtomicTorrentStatusError::RetrievingPieceError
    );
    assert_eq!(
        status.get_piece(0, u64::MAX, usize::MAX).unwrap_err(),
        AtomicTorrentStatusError::RetrievingPieceError
    );
    assert!(status.get_piece(2, 81920, 0).is_ok());
}

#[test]
fn connected_peers_are_counted_up_and_down() {
    let torrent = create_test_torrent("peers");
    let mut status = AtomicTorrentStatus::new(&torrent, test_config());
    for expected in 1..=10 {
        status.peer_connected();
        assert_eq!(status.current_peers(), expected);
    }
    for expected in (0..10).rev() {
        assert_eq!(status.peer_disconnected(), Ok(()));
        assert_eq!(status.current_peers(), expected);
    }
    assert_eq!(
        status.peer_disconnected(),
        Err(AtomicTorrentStatusError::NoPeersConnected)
    );
}

#[test]
fn last_piece_sizes() {
    assert_eq!(torrent_with_pieces("a", 81920, 32768).last_piece_size(), 16384);
    assert_eq!(torrent_with_pieces("b", 65536, 32768).last_piece_size(), 32768);
    assert_eq!(torrent_with_pieces("b", 65536, 32768).total_pieces(), 2);
    assert_eq!(torrent_with_pieces("c", 65537, 32768).last_piece_size(), 1);
    assert_eq!(torrent_with_pieces("c", 65537, 32768).total_pieces(), 3);
    assert_eq!(torrent_with_pieces("d", 1, 32768).total_pieces(), 1);
    assert_eq!(torrent_with_pieces("d", 1, 32768).last_piece_size(), 1);
}

#[test]
fn sizes_that_the_protocol_cannot_address_are_not_valid() {
    let mut torrent = create_test_torrent("sizes");
    assert!(torrent.is_valid());
    torrent.info.piece_length = 0;
    assert!(!torrent.is_valid());
    torrent.info.piece_length = -1;
    assert!(!torrent.is_valid());
    torrent.info.piece_length = 1 << 32;
    assert!(!torrent.is_valid());
    torrent.info.piece_length = (1 << 32) - 1;
    assert!(torrent.is_valid());
    torrent.info.length = -1;
    assert!(!torrent.is_valid());
    torrent.info.piece_length = 1;
    torrent.info.length = (1 << 32) - 1;
    assert!(torrent.is_valid());
    torrent.info.length = 1 << 32;
    assert!(!torrent.is_valid());
    torrent.info.length = 0;
    assert!(torrent.is_valid());
    assert_eq!(torrent.total_pieces(), 0);
    // An empty file ends on a piece: the formula gives a whole piece.
    assert_eq!(torrent.last_piece_size(), 1);
    torrent.info.piece_length = 32768;
    assert_eq!(torrent.last_piece_size(), 32768);
}
