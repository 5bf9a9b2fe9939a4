use dtorrent::peer::handshake::{FromHandshakeError, Handshake};

fn info_hash() -> Vec<u8> {
    (1..=20).collect()
}

fn peer_id() -> Vec<u8> {
    b"-DT0001-000000000000".to_vec()
}

#[test]
fn handshake_is_68_bytes_in_order() {
    let bytes = Handshake::new(info_hash(), peer_id()).to_bytes();
    assert_eq!(bytes.len(), 68);
    assert_eq!(bytes[0], 19);
    assert_eq!(&bytes[1..20], b"BitTorrent protocol");
    assert_eq!(&bytes[20..28], &[0u8; 8]);
    assert_eq!(&bytes[28..48], info_hash().as_slice());
    assert_eq!(&bytes[48..68], peer_id().as_slice());
}

#[test]
fn handshake_is_read_back() {
    let handshake = Handshake::new(info_hash(), peer_id());
    let read = Handshake::from_bytes(&handshake.to_bytes()).unwrap();
    assert_eq!(read, handshake);
    assert_eq!(read.info_hash, info_hash());
    assert_eq!(read.peer_id, peer_id());
    assert_eq!(read.pstrlen, 19);
    assert_eq!(read.pstr, b"BitTorrent protocol".to_vec());
    assert_eq!(read.reserved, [0u8; 8]);
}

#[test]
fn reserved_bytes_are_taken_as_they_come() {
    let mut bytes = Handshake::new(info_hash(), peer_id()).to_bytes();
    bytes[25] = 0x10;
    bytes[27] = 0x05;
    let read = Handshake::from_bytes(&bytes).unwrap();
    assert_eq!(read.reserved, [0, 0, 0, 0, 0, 0x10, 0, 0x05]);
    assert_eq!(read.to_bytes(), bytes);
}

#[test]
fn bad_handshakes() {
    let good = Handshake::new(info_hash(), peer_id()).to_bytes();
    assert_eq!(
        Handshake::from_bytes(&good[..67]),
        Err(FromHandshakeError::BadHandshake)
    );
    let mut longer = good.clone();
    longer.push(0);
    assert_eq!(
        Handshake::from_bytes(&longer),
        Err(FromHandshakeError::BadHandshake)
    );
    assert_eq!(
        Handshake::from_bytes(&[]),
        Err(FromHandshakeError::BadHandshake)
    );
    let mut wrong_length = good.clone();
    wrong_length[0] = 18;
    assert_eq!(
        Handshake::from_bytes(&wrong_length),
        Err(FromHandshakeError::BadHandshake)
    );
    let mut wrong_name = good.clone();
    wrong_name[19] = b'L';
    assert_eq!(
        Handshake::from_bytes(&wrong_name),
        Err(FromHandshakeError::BadHandshake)
    );
    let mut wrong_first = good;
    wrong_first[1] = b'b';
    assert_eq!(
        Handshake::from_bytes(&wrong_first),
        Err(FromHandshakeError::BadHandshake)
    );
}
