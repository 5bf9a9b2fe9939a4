//! The fixed 68-byte message that opens every connection.

use crate::digest::same_bytes;
use crate::peer::wire::{copy_range, push_all};
use vstd::prelude::*;

verus! {

/// Number of bytes of a handshake.
pub const HANDSHAKE_LEN: usize = 68;

/// The handshake: the protocol's name and its length, eight reserved bytes,
/// the info hash of the torrent and the id of the peer that sends it.
#[derive(Debug, PartialEq, Eq, Clone)]
pub struct Handshake {
    pub pstrlen: u8,
    pub pstr: Vec<u8>,
    pub reserved: [u8; 8],
    pub info_hash: Vec<u8>,
    pub peer_id: Vec<u8>,
}

/// Why bytes could not be read as a handshake.
#[derive(Debug, PartialEq, Eq, Clone, Copy, Structural)]
pub enum FromHandshakeError {
    /// The bytes are not 68, or do not start with the protocol's name and
    /// its length.
    BadHandshake,
}

/// A handshake as contracts see it.
pub struct HandshakeView {
    pub pstrlen: u8,
    pub pstr: Seq<u8>,
    pub reserved: Seq<u8>,
    pub info_hash: Seq<u8>,
    pub peer_id: Seq<u8>,
}

/// The bytes of `BitTorrent protocol`.
pub open spec fn protocol_name() -> Seq<u8> {
    seq![
        0x42u8, 0x69u8, 0x74u8, 0x54u8, 0x6fu8, 0x72u8, 0x72u8, 0x65u8, 0x6eu8, 0x74u8, 0x20u8,
        0x70u8, 0x72u8, 0x6fu8, 0x74u8, 0x6fu8, 0x63u8, 0x6fu8, 0x6cu8,
    ]
}

/// The handshake that a client of this protocol sends for the given info
/// hash and peer id: the name, its length 19 and zeroed reserved bytes.
pub open spec fn standard(info_hash: Seq<u8>, peer_id: Seq<u8>) -> HandshakeView {
    HandshakeView {
        pstrlen: 19,
        pstr: protocol_name(),
        reserved: Seq::new(8, |i: int| 0u8),
        info_hash,
        peer_id,
    }
}

/// The bytes of a handshake, one field after the other.
pub open spec fn encoded_handshake(handshake: HandshakeView) -> Seq<u8> {
    seq![handshake.pstrlen] + handshake.pstr + handshake.reserved + handshake.info_hash
        + handshake.peer_id
}

/// The handshake that 68 bytes spell, if they start with the length 19 and
/// the protocol's name. The reserved bytes are taken as they come.
pub open spec fn decoded_handshake(bytes: Seq<u8>) -> Option<HandshakeView> {
    if bytes.len() == 68 && bytes[0] == 19 && bytes.subrange(1, 20) == protocol_name() {
        Some(
            HandshakeView {
                pstrlen: 19,
                pstr: protocol_name(),
                reserved: bytes.subrange(20, 28),
                info_hash: bytes.subrange(28, 48),
                peer_id: bytes.subrange(48, 68),
            },
        )
    } else {
        None
    }
}

/// Decoding the bytes of a handshake gives the handshake back, whenever it
/// names the protocol and its hash and id have 20 bytes each.
pub proof fn lemma_handshake_round_trip(handshake: HandshakeView)
    requires
        handshake.pstrlen == 19,
        handshake.pstr == protocol_name(),
        handshake.reserved.len() == 8,
        handshake.info_hash.len() == 20,
        handshake.peer_id.len() == 20,
    ensures
        encoded_handshake(handshake).len() == 68,
        decoded_handshake(encoded_handshake(handshake)) == Some(handshake),
{
    let bytes = encoded_handshake(handshake);
    assert(bytes.subrange(1, 20) =~= protocol_name());
    assert(bytes.subrange(20, 28) =~= handshake.reserved);
    assert(bytes.subrange(28, 48) =~= handshake.info_hash);
    assert(bytes.subrange(48, 68) =~= handshake.peer_id);
}

/// The bytes of `BitTorrent protocol`.
pub fn protocol_name_bytes() -> (name: Vec<u8>)
    ensures
        name@ == protocol_name(),
{
    let name: Vec<u8> = vec![
        0x42u8, 0x69u8, 0x74u8, 0x54u8, 0x6fu8, 0x72u8, 0x72u8, 0x65u8, 0x6eu8, 0x74u8, 0x20u8,
        0x70u8, 0x72u8, 0x6fu8, 0x74u8, 0x6fu8, 0x63u8, 0x6fu8, 0x6cu8,
    ];
    assert(name@ =~= protocol_name());
    name
}

impl View for Handshake {
    type V = HandshakeView;

    open spec fn view(&self) -> HandshakeView {
        HandshakeView {
            pstrlen: self.pstrlen,
            pstr: self.pstr@,
            reserved: self.reserved@,
            info_hash: self.info_hash@,
            peer_id: self.peer_id@,
        }
    }
}

impl Handshake {
    /// The handshake of this protocol for an info hash and a peer id.
    pub fn new(info_hash: Vec<u8>, peer_id: Vec<u8>) -> (handshake: Self)
        ensures
            handshake@ == standard(info_hash@, peer_id@),
    {
        let handshake = Self {
            pstrlen: 19,
            pstr: protocol_name_bytes(),
            reserved: [0u8; 8],
            info_hash,
            peer_id,
        };
        assert(handshake.reserved@ =~= Seq::new(8, |i: int| 0u8));
        handshake
    }

    /// The bytes of the handshake on the wire: 68 of them where the hash and
    /// the id have 20 bytes each.
    pub fn to_bytes(&self) -> (bytes: Vec<u8>)
        ensures
            bytes@ == encoded_handshake(self@),
    {
        let mut bytes: Vec<u8> = Vec::new();
        bytes.push(self.pstrlen);
        push_all(&mut bytes, self.pstr.as_slice());
        push_all(&mut bytes, self.reserved.as_slice());
        push_all(&mut bytes, self.info_hash.as_slice());
        push_all(&mut bytes, self.peer_id.as_slice());
        assert(bytes@ =~= encoded_handshake(self@));
        bytes
    }

    /// Reads a handshake. Anything but 68 bytes that start with the length
    /// 19 and the protocol's name is `BadHandshake`.
    pub fn from_bytes(bytes: &[u8]) -> (result: Result<Self, FromHandshakeError>)
        ensures
            match decoded_handshake(bytes@) {
                Some(view) => result matches Ok(handshake) && handshake@ == view,
                None => result == Err::<Self, FromHandshakeError>(FromHandshakeError::BadHandshake),
            },
    {
        if bytes.len() != HANDSHAKE_LEN || bytes[0] != 19 {
            return Err(FromHandshakeError::BadHandshake);
        }
        let name = protocol_name_bytes();
        let found = vstd::slice::slice_subrange(bytes, 1, 20);
        if !same_bytes(found, name.as_slice()) {
            return Err(FromHandshakeError::BadHandshake);
        }
        let reserved: [u8; 8] = [
            bytes[20],
            bytes[21],
            bytes[22],
            bytes[23],
            bytes[24],
            bytes[25],
            bytes[26],
            bytes[27],
        ];
        assert(reserved@ =~= bytes@.subrange(20, 28));
        Ok(
            Self {
                pstrlen: 19,
                pstr: name,
                reserved,
                info_hash: copy_range(bytes, 28, 48),
                peer_id: copy_range(bytes, 48, 68),
            },
        )
    }
}

} // verus!
