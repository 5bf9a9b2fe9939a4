use crate::encoder_decoder::bencode::{
    entries_value, fold_entries, lemma_dict_value, lemma_fold_error_stays, lemma_fold_next,
    Bencode, Value,
};
use crate::digest::same_bytes;
use crate::peer::wire::copy_range;
use crate::text::text_of;
use vstd::prelude::*;
use vstd::string::StringSliceAdditionalSpecFns;
use vstd::utf8::{decode_utf8, valid_utf8};

verus! {

/// What was read of a peer so far.
pub struct PeerFields {
    pub peer_id: Seq<u8>,
    pub ip: Seq<char>,
    pub port: i64,
}

/// What one entry of the dictionary adds to what was read: the id under
/// `peer id`, the address under `ip`, the port under `port`; any other key
/// adds nothing. A value of the wrong kind, or an address that is no text,
/// is an error.
pub open spec fn peer_entry(fields: PeerFields, key: Seq<u8>, value: Value) -> Result<
    PeerFields,
    FromBtPeerError,
> {
    if key == "peer id".spec_bytes() {
        match value {
            Value::Text(id) => Ok(PeerFields { peer_id: id, ..fields }),
            _ => Err(FromBtPeerError::InvalidPeerId),
        }
    } else if key == "ip".spec_bytes() {
        match value {
            Value::Text(address) => if valid_utf8(address) {
                Ok(PeerFields { ip: decode_utf8(address), ..fields })
            } else {
                Err(FromBtPeerError::InvalidIp)
            },
            _ => Err(FromBtPeerError::InvalidIp),
        }
    } else if key == "port".spec_bytes() {
        match value {
            Value::Number(port) => Ok(PeerFields { port, ..fields }),
            _ => Err(FromBtPeerError::InvalidPort),
        }
    } else {
        Ok(fields)
    }
}

/// The step that reads one entry of the dictionary of a peer.
pub open spec fn peer_step() -> spec_fn(PeerFields, Seq<u8>, Value) -> Result<
    PeerFields,
    FromBtPeerError,
> {
    |fields: PeerFields, key: Seq<u8>, value: Value| peer_entry(fields, key, value)
}

/// What is known of a peer before any entry is read: an empty id, an empty
/// address and port zero.
pub open spec fn empty_peer() -> PeerFields {
    PeerFields { peer_id: Seq::empty(), ip: Seq::empty(), port: 0 }
}

/// The peer that a bencoded value describes: a dictionary, read entry by
/// entry.
pub open spec fn peer_of(value: Value) -> Result<PeerFields, FromBtPeerError> {
    match value {
        Value::Dict(entries) => fold_entries(entries, empty_peer(), peer_step()),
        _ => Err(FromBtPeerError::NotADict),
    }
}

/// A peer as the tracker or a socket names it.
#[derive(Debug, PartialEq, Eq, Clone)]
pub struct BtPeer {
    /// The id that the peer chose for itself, where it is known.
    pub peer_id: Option<Vec<u8>>,
    /// Address of the peer.
    pub ip: String,
    /// Port of the peer.
    pub port: i64,
}

/// Why a peer could not be read from a tracker's answer.
#[derive(Debug, PartialEq, Eq, Clone, Copy, Structural)]
pub enum FromBtPeerError {
    InvalidPeerId,
    InvalidIp,
    InvalidPort,
    NotADict,
}

impl BtPeer {
    /// The peer is what was read: the id, the address and the port.
    pub open spec fn has_fields(&self, fields: PeerFields) -> bool {
        &&& self.peer_id matches Some(id)
        &&& id@ == fields.peer_id
        &&& self.ip@ == fields.ip
        &&& self.port == fields.port
    }

    /// A peer of which only the address and the port are known.
    pub fn new(ip: String, port: i64) -> (peer: Self)
        ensures
            peer.peer_id is None,
            peer.ip == ip,
            peer.port == port,
    {
        Self { peer_id: None, ip, port }
    }

    /// Reads a peer from an entry of the peer list of a tracker's answer.
    ///
    /// The value has to be a dictionary (`NotADict`). Its `peer id` has to
    /// be a byte string (`InvalidPeerId`), its `ip` a byte string that is
    /// text (`InvalidIp`), its `port` a number (`InvalidPort`). What is not
    /// given stays empty, or zero.
    pub fn from(bencode: Bencode) -> (result: Result<BtPeer, FromBtPeerError>)
        ensures
            match peer_of(bencode.value()) {
                Ok(fields) => result matches Ok(peer) && peer.has_fields(fields),
                Err(error) => result == Err::<BtPeer, FromBtPeerError>(error),
            },
    {
        BtPeer::from_bencode(&bencode)
    }

    /// Reads a peer as `from` does, from a value that is kept.
    #[verifier::loop_isolation(false)]
    pub fn from_bencode(bencode: &Bencode) -> (result: Result<BtPeer, FromBtPeerError>)
        ensures
            match peer_of(bencode.value()) {
                Ok(fields) => result matches Ok(peer) && peer.has_fields(fields),
                Err(error) => result == Err::<BtPeer, FromBtPeerError>(error),
            },
    {
        let entries = match bencode {
            Bencode::BDict(entries) => entries,
            _ => { return Err(FromBtPeerError::NotADict); },
        };
        proof {
            lemma_dict_value(*entries);
        }
        let ghost values = entries_value(entries@);
        let mut peer_id: Vec<u8> = Vec::new();
        let mut ip: String = String::new();
        let mut port: i64 = 0;
        let mut at: usize = 0;
        while at < entries.len()
            invariant
                at <= entries@.len(),
                fold_entries(values.subrange(0, at as int), empty_peer(), peer_step()) == Ok::<
                    PeerFields,
                    FromBtPeerError,
                >(PeerFields { peer_id: peer_id@, ip: ip@, port }),
            decreases entries@.len() - at,
        {
            proof {
                lemma_fold_next(values, empty_peer(), peer_step(), at as int);
                if fold_entries(values.subrange(0, at + 1), empty_peer(), peer_step()) is Err {
                    lemma_fold_error_stays(values, empty_peer(), peer_step(), at + 1);
                }
            }
            let key = entries[at].0.as_slice();
            if same_bytes(key, "peer id".as_bytes()) {
                peer_id = match BtPeer::create_peer_id(&entries[at].1) {
                    Ok(id) => id,
                    Err(error) => { return Err(error); },
                };
            } else if same_bytes(key, "ip".as_bytes()) {
                ip = match BtPeer::create_ip(&entries[at].1) {
                    Ok(address) => address,
                    Err(error) => { return Err(error); },
                };
            } else if same_bytes(key, "port".as_bytes()) {
                port = match BtPeer::create_port(&entries[at].1) {
                    Ok(number) => number,
                    Err(error) => { return Err(error); },
                };
            }
            at += 1;
        }
        proof {
            assert(values.subrange(0, at as int) =~= values);
        }
        Ok(BtPeer { peer_id: Some(peer_id), ip, port })
    }

    /// Reads the id of a peer: a byte string.
    fn create_peer_id(bencode: &Bencode) -> (result: Result<Vec<u8>, FromBtPeerError>)
        ensures
            match bencode.value() {
                Value::Text(id) => result matches Ok(read) && read@ == id,
                _ => result == Err::<Vec<u8>, FromBtPeerError>(FromBtPeerError::InvalidPeerId),
            },
    {
        match bencode {
            Bencode::BString(id) => {
                let copy = copy_range(id.as_slice(), 0, id.len());
                assert(copy@ =~= id@);
                Ok(copy)
            },
            _ => Err(FromBtPeerError::InvalidPeerId),
        }
    }

    /// Reads the address of a peer: a byte string that is text.
    fn create_ip(bencode: &Bencode) -> (result: Result<String, FromBtPeerError>)
        ensures
            match bencode.value() {
                Value::Text(address) => if valid_utf8(address) {
                    result matches Ok(text) && text@ == decode_utf8(address)
                } else {
                    result == Err::<String, FromBtPeerError>(FromBtPeerError::InvalidIp)
                },
                _ => result == Err::<String, FromBtPeerError>(FromBtPeerError::InvalidIp),
            },
    {
        match bencode {
            Bencode::BString(address) => match text_of(address.as_slice()) {
                Some(text) => Ok(text),
                None => Err(FromBtPeerError::InvalidIp),
            },
            _ => Err(FromBtPeerError::InvalidIp),
        }
    }

    /// Reads the port of a peer: a number.
    fn create_port(bencode: &Bencode) -> (result: Result<i64, FromBtPeerError>)
        ensures
            result == (match bencode.value() {
                Value::Number(port) => Ok::<i64, FromBtPeerError>(port),
                _ => Err(FromBtPeerError::InvalidPort),
            }),
    {
        match bencode {
            Bencode::BNumber(number) => Ok(*number),
            _ => Err(FromBtPeerError::InvalidPort),
        }
    }
}

} // verus!
