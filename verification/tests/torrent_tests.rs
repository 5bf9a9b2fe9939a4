use dtorrent::encoder_decoder::bencode::Bencode;
use dtorrent::torrent_parser::info::{FromInfoError, Info};
use dtorrent::torrent_parser::torrent::{FromTorrentError, Torrent};
use sha1::{Digest, Sha1};
use std::collections::BTreeMap;

fn dict_of(dict: BTreeMap<Vec<u8>, Bencode>) -> Bencode {
    Bencode::BDict(dict.into_iter().collect())
}

fn build_info_bencode(
    length: i64,
    name: Vec<u8>,
    pieces_len: i64,
    pieces: Vec<u8>,
) -> BTreeMap<Vec<u8>, Bencode> {
    let mut info = BTreeMap::new();
    info.insert(b"length".to_vec(), Bencode::BNumber(length));
    info.insert(b"name".to_vec(), Bencode::BString(name));
    info.insert(b"piece length".to_vec(), Bencode::BNumber(pieces_len));
    info.insert(b"pieces".to_vec(), Bencode::BString(pieces));

    info
}

fn build_torrent_bencode(announce: Vec<u8>, info: BTreeMap<Vec<u8>, Bencode>) -> Bencode {
    let mut dict = BTreeMap::new();

    dict.insert(b"announce".to_vec(), Bencode::BString(announce));
    dict.insert(b"info".to_vec(), dict_of(info));

    dict_of(dict)
}

#[test]
fn test_from_torrent_full() {
    let announce = String::from("http://example.com/announce");
    let info_len = 10;
    let info_name = String::from("example");
    let info_piece_len = 20;
    let info_pieces = String::from("test").into_bytes();

    let info_bencode = build_info_bencode(
        info_len,
        info_name.clone().into_bytes(),
        info_piece_len,
        info_pieces.clone(),
    );
    let info = Info::from(&dict_of(build_info_bencode(
        info_len,
        info_name.clone().into_bytes(),
        info_piece_len,
        info_pieces.clone(),
    )))
    .unwrap();
    let torrent_bencode = build_torrent_bencode(announce.clone().into_bytes(), info_bencode);

    let info_hash = Torrent::create_info_hash(&info).unwrap();

    let torrent = Torrent::from(torrent_bencode).unwrap();

    assert_eq!(torrent.announce_url, announce);
    assert_eq!(torrent.info.length, info_len);
    assert_eq!(torrent.info.name, info_name);
    assert_eq!(torrent.info.piece_length, info_piece_len);
    assert_eq!(torrent.info.pieces, info_pieces);
    assert_eq!(torrent.info_hash, info_hash);
}

#[test]
fn test_from_torrent_empty() {
    let torrent_bencode = Bencode::BDict(vec![]);

    let actual_err = Torrent::from(torrent_bencode).unwrap_err();
    let expected_err = FromTorrentError::MissingAnnounce;

    assert_eq!(actual_err, expected_err);
}

#[test]
fn test_from_torrent_missing_announce() {
    let mut m = BTreeMap::new();
    m.insert(b"info".to_vec(), dict_of(BTreeMap::new()));
    let torrent_bencode = dict_of(m);

    let actual_err = Torrent::from(torrent_bencode).unwrap_err();
    let expected_err = FromTorrentError::MissingAnnounce;

    assert_eq!(actual_err, expected_err);
}

#[test]
fn test_from_torrent_missing_info() {
    let announce = String::from("http://example.com/announce").into_bytes();
    let mut m = BTreeMap::new();
    m.insert(b"announce".to_vec(), Bencode::BString(announce));
    let torrent_bencode = dict_of(m);

    let actual_err = Torrent::from(torrent_bencode).unwrap_err();
    let expected_err = FromTorrentError::MissingInfo;

    assert_eq!(actual_err, expected_err);
}

#[test]
fn test_from_torrent_not_a_dict() {
    let torrent_bencode = Bencode::BString(String::from("test").into_bytes());

    let actual_err = Torrent::from(torrent_bencode).unwrap_err();
    let expected_err = FromTorrentError::NotADict;

    assert_eq!(actual_err, expected_err);
}

#[test]
fn info_hash_is_the_digest_of_the_encoded_info() {
    let info = Info {
        length: 10,
        name: "example".to_string(),
        piece_length: 20,
        pieces: b"test".to_vec(),
    };
    let encoded = b"d6:lengthi10e4:name7:example12:piece lengthi20e6:pieces4:teste";
    assert_eq!(info.to_bencode().encode(), encoded.to_vec());
    let digest = Sha1::digest(encoded);
    let expected: String = digest.iter().map(|b| format!("{:02x}", b)).collect();
    let hash = Torrent::create_info_hash(&info).unwrap();
    assert_eq!(hash, expected);
    assert_eq!(hash.len(), 40);

    let torrent = Torrent {
        announce_url: "announce".to_string(),
        info,
        info_hash: hash,
    };
    assert_eq!(torrent.get_info_hash_as_bytes().unwrap(), digest.to_vec());
}

#[test]
fn hash_text_is_lower_case_hexadecimal() {
    assert_eq!(Torrent::hash_text(&[0x00, 0x0f, 0xa0, 0xff, 0x2c]), "000fa0ff2c");
    assert_eq!(Torrent::hash_text(&[]), "");
}

#[test]
fn info_hash_text_has_to_be_hexadecimal() {
    let mut torrent = Torrent {
        announce_url: "announce".to_string(),
        info: Info {
            length: 1,
            name: "n".to_string(),
            piece_length: 1,
            pieces: vec![],
        },
        info_hash: "info_hash".to_string(),
    };
    assert_eq!(
        torrent.get_info_hash_as_bytes(),
        Err(FromTorrentError::InfoHashError)
    );
    torrent.info_hash = "2C6b".to_string();
    assert_eq!(torrent.get_info_hash_as_bytes(), Ok(vec![0x2c, 0x6b]));
    torrent.info_hash = "2c6".to_string();
    assert_eq!(
        torrent.get_info_hash_as_bytes(),
        Err(FromTorrentError::InfoHashError)
    );
}

#[test]
fn torrent_errors() {
    assert_eq!(
        Torrent::from(Bencode::BDict(vec![(
            b"announce".to_vec(),
            Bencode::BNumber(1)
        )]))
        .unwrap_err(),
        FromTorrentError::MissingAnnounce
    );
    assert_eq!(
        Torrent::from(Bencode::BDict(vec![(
            b"announce".to_vec(),
            Bencode::BString(vec![0xff])
        )]))
        .unwrap_err(),
        FromTorrentError::MissingAnnounce
    );
    assert_eq!(
        Torrent::from(Bencode::BDict(vec![
            (b"announce".to_vec(), Bencode::BString(b"a".to_vec())),
            (b"info".to_vec(), Bencode::BNumber(1)),
        ]))
        .unwrap_err(),
        FromTorrentError::MissingInfo
    );
    assert_eq!(
        Torrent::from(Bencode::BDict(vec![
            (b"announce".to_vec(), Bencode::BString(b"a".to_vec())),
            (
                b"info".to_vec(),
                Bencode::BDict(vec![(b"length".to_vec(), Bencode::BString(vec![]))])
            ),
        ]))
        .unwrap_err(),
        FromTorrentError::MissingInfo
    );
}

#[test]
fn info_errors() {
    let wrong = |key: &[u8], value: Bencode| {
        Info::from(&Bencode::BDict(vec![(key.to_vec(), value)])).unwrap_err()
    };
    assert_eq!(
        Info::from(&Bencode::BList(vec![])).unwrap_err(),
        FromInfoError::NotADict
    );
    assert_eq!(
        wrong(b"length", Bencode::BString(vec![])),
        FromInfoError::InvalidLength
    );
    assert_eq!(wrong(b"name", Bencode::BNumber(1)), FromInfoError::InvalidName);
    assert_eq!(
        wrong(b"name", Bencode::BString(vec![0xc0])),
        FromInfoError::InvalidName
    );
    assert_eq!(
        wrong(b"piece length", Bencode::BList(vec![])),
        FromInfoError::InvalidPieceLength
    );
    assert_eq!(
        wrong(b"pieces", Bencode::BNumber(1)),
        FromInfoError::InvalidPieces
    );
    let empty = Info::from(&Bencode::BDict(vec![])).unwrap();
    assert_eq!(
        (empty.length, empty.name.as_str(), empty.piece_length),
        (0, "", 0)
    );
    assert_eq!(empty.pieces, Vec::<u8>::new());
}
