use crate::digest::{
    decode_hex, encode_hex, from_hex, is_hex, lemma_hex_is_ascii, same_bytes, sha1, sha1_digest,
    to_hex,
};
use crate::encoder_decoder::bencode::{
    encoding, entries_value, fold_entries, lemma_dict_value, lemma_fold_error_stays,
    lemma_fold_next, Bencode, Value,
};
use crate::text::{ascii_chars, ascii_text, text_of};
use crate::torrent_parser::info::{
    info_of, info_value, last_piece_bytes, lemma_last_piece_bounds, pieces_needed, Info,
    InfoFields,
};
use vstd::prelude::*;
use vstd::string::{StrSliceExecFns, StringSliceAdditionalSpecFns};
use vstd::utf8::{decode_utf8, valid_utf8};

verus! {

/// Why a torrent could not be read from its metainfo.
#[derive(Debug, PartialEq, Eq, Clone, Copy, Structural)]
pub enum FromTorrentError {
    /// There is no announce address, or it is not text.
    MissingAnnounce,
    /// There is no `info` dictionary, or it lacks a field.
    MissingInfo,
    /// The info hash could not be computed or read.
    InfoHashError,
    /// The metainfo is not a dictionary.
    NotADict,
}

/// A parsed single-file torrent.
#[derive(Debug, Clone)]
pub struct Torrent {
    /// Address of the tracker that is asked for peers.
    pub announce_url: String,
    /// The `info` dictionary.
    pub info: Info,
    /// SHA-1 of the encoded `info` dictionary, as 40 hexadecimal digits.
    pub info_hash: String,
}

/// What was read of a torrent so far.
pub struct TorrentFields {
    pub announce: Seq<char>,
    pub info: Option<InfoFields>,
}

/// The announce address that a value is: a byte string that is text.
pub open spec fn announce_of(value: Value) -> Result<Seq<char>, FromTorrentError> {
    match value {
        Value::Text(address) => if valid_utf8(address) {
            Ok(decode_utf8(address))
        } else {
            Err(FromTorrentError::MissingAnnounce)
        },
        _ => Err(FromTorrentError::MissingAnnounce),
    }
}

/// What one entry adds to what was read of a torrent: the address under
/// `announce`, the `info` dictionary under `info`; any other key adds
/// nothing.
pub open spec fn torrent_entry(fields: TorrentFields, key: Seq<u8>, value: Value) -> Result<
    TorrentFields,
    FromTorrentError,
> {
    if key == "announce".spec_bytes() {
        match announce_of(value) {
            Ok(announce) => Ok(TorrentFields { announce, ..fields }),
            Err(error) => Err(error),
        }
    } else if key == "info".spec_bytes() {
        match info_of(value) {
            Ok(info) => Ok(TorrentFields { info: Some(info), ..fields }),
            Err(_) => Err(FromTorrentError::MissingInfo),
        }
    } else {
        Ok(fields)
    }
}

/// The step that reads one entry of a metainfo dictionary.
pub open spec fn torrent_step() -> spec_fn(TorrentFields, Seq<u8>, Value) -> Result<
    TorrentFields,
    FromTorrentError,
> {
    |fields: TorrentFields, key: Seq<u8>, value: Value| torrent_entry(fields, key, value)
}

/// What is known of a torrent before any entry is read.
pub open spec fn empty_torrent() -> TorrentFields {
    TorrentFields { announce: Seq::empty(), info: None }
}

/// The announce address and the `info` dictionary that a metainfo gives. It
/// has to be a dictionary (`NotADict`) whose entries are read one after the
/// other; an address that is missing or empty is `MissingAnnounce`, a
/// missing `info` dictionary `MissingInfo`.
pub open spec fn torrent_of(value: Value) -> Result<(Seq<char>, InfoFields), FromTorrentError> {
    match value {
        Value::Dict(entries) => match fold_entries(entries, empty_torrent(), torrent_step()) {
            Ok(fields) => if fields.announce.len() == 0 {
                Err(FromTorrentError::MissingAnnounce)
            } else {
                match fields.info {
                    Some(info) => Ok((fields.announce, info)),
                    None => Err(FromTorrentError::MissingInfo),
                }
            },
            Err(error) => Err(error),
        },
        _ => Err(FromTorrentError::NotADict),
    }
}

/// The info hash of an `info` dictionary, as text: the SHA-1 digest of its
/// encoding in 40 lower-case hexadecimal digits.
pub open spec fn info_hash_of(info: InfoFields) -> Seq<char> {
    ascii_chars(to_hex(sha1_digest(encoding(info_value(info)))))
}

impl Torrent {
    /// Reads a torrent from its metainfo, and computes its info hash.
    #[verifier::loop_isolation(false)]
    pub fn from(bencode: Bencode) -> (result: Result<Torrent, FromTorrentError>)
        ensures
            match torrent_of(bencode.value()) {
                Ok((announce, info)) => {
                    &&& result matches Ok(torrent)
                    &&& torrent.announce_url@ == announce
                    &&& torrent.info@ == info
                    &&& torrent.info_hash@ == info_hash_of(info)
                },
                Err(error) => result == Err::<Torrent, FromTorrentError>(error),
            },
    {
        let entries = match bencode {
            Bencode::BDict(entries) => entries,
            _ => { return Err(FromTorrentError::NotADict); },
        };
        proof {
            lemma_dict_value(entries);
        }
        let ghost values = entries_value(entries@);
        let mut announce_url: String = String::new();
        let mut info: Option<Info> = None;
        let mut at: usize = 0;
        while at < entries.len()
            invariant
                at <= entries@.len(),
                fold_entries(values.subrange(0, at as int), empty_torrent(), torrent_step())
                    == Ok::<TorrentFields, FromTorrentError>(
                    TorrentFields {
                        announce: announce_url@,
                        info: match info {
                            Some(read) => Some(read@),
                            None => None,
                        },
                    },
                ),
            decreases entries@.len() - at,
        {
            proof {
                lemma_fold_next(values, empty_torrent(), torrent_step(), at as int);
                if fold_entries(values.subrange(0, at + 1), empty_torrent(), torrent_step())
                    is Err {
                    lemma_fold_error_stays(values, empty_torrent(), torrent_step(), at + 1);
                }
            }
            let key = entries[at].0.as_slice();
            if same_bytes(key, "announce".as_bytes()) {
                match Torrent::create_announce(&entries[at].1) {
                    Ok(announce) => { announce_url = announce; },
                    Err(error) => { return Err(error); },
                }
            } else if same_bytes(key, "info".as_bytes()) {
                match Torrent::create_info(&entries[at].1) {
                    Ok(read) => { info = Some(read); },
                    Err(error) => { return Err(error); },
                }
            }
            at += 1;
        }
        proof {
            assert(values.subrange(0, at as int) =~= values);
        }
        if announce_url.as_str().unicode_len() == 0 {
            return Err(FromTorrentError::MissingAnnounce);
        }
        let info = match info {
            Some(info) => info,
            None => { return Err(FromTorrentError::MissingInfo); },
        };
        let info_hash = match Torrent::create_info_hash(&info) {
            Ok(info_hash) => info_hash,
            Err(error) => { return Err(error); },
        };
        Ok(Torrent { announce_url, info, info_hash })
    }

    /// Reads the announce address: a byte string that is text.
    fn create_announce(bencode: &Bencode) -> (result: Result<String, FromTorrentError>)
        ensures
            match announce_of(bencode.value()) {
                Ok(announce) => result matches Ok(text) && text@ == announce,
                Err(error) => result == Err::<String, FromTorrentError>(error),
            },
    {
        let address = match bencode {
            Bencode::BString(address) => address,
            _ => { return Err(FromTorrentError::MissingAnnounce); },
        };
        match text_of(address.as_slice()) {
            Some(text) => Ok(text),
            None => Err(FromTorrentError::MissingAnnounce),
        }
    }

    /// Reads the `info` dictionary; whatever is wrong with it is
    /// `MissingInfo`.
    fn create_info(bencode: &Bencode) -> (result: Result<Info, FromTorrentError>)
        ensures
            match info_of(bencode.value()) {
                Ok(fields) => result matches Ok(info) && info@ == fields,
                Err(_) => result == Err::<Info, FromTorrentError>(FromTorrentError::MissingInfo),
            },
    {
        match Info::from(bencode) {
            Ok(info) => Ok(info),
            Err(_) => Err(FromTorrentError::MissingInfo),
        }
    }

    /// The bencoded value of the torrent: its announce address and its
    /// `info` dictionary.
    pub fn to_bencode(&self) -> (bencode: Bencode)
        ensures
            bencode.value() == Value::Dict(
                seq![
                    (
                        "announce_url".spec_bytes(),
                        Value::Text(vstd::utf8::encode_utf8(self.announce_url@)),
                    ),
                    ("info".spec_bytes(), info_value(self.info@)),
                ],
            ),
    {
        let mut entries: Vec<(Vec<u8>, Bencode)> = Vec::new();
        entries.push(
            (
                "announce_url".as_bytes_vec(),
                Bencode::BString(self.announce_url.as_str().as_bytes_vec()),
            ),
        );
        entries.push(("info".as_bytes_vec(), self.info.to_bencode()));
        proof {
            lemma_dict_value(entries);
            assert(entries_value(entries@) =~= seq![
                (
                    "announce_url".spec_bytes(),
                    Value::Text(vstd::utf8::encode_utf8(self.announce_url@)),
                ),
                ("info".spec_bytes(), info_value(self.info@)),
            ]);
        }
        Bencode::BDict(entries)
    }

    /// The info hash of an `info` dictionary: the SHA-1 digest of its
    /// encoding, written in 40 lower-case hexadecimal digits.
    pub fn create_info_hash(info: &Info) -> (result: Result<String, FromTorrentError>)
        ensures
            result matches Ok(hash) && hash@ == info_hash_of(info@),
    {
        let encoded = info.to_bencode().encode();
        let digest = sha1(encoded.as_slice());
        Ok(Torrent::hash_text(digest.as_slice()))
    }

    /// A digest in lower-case hexadecimal digits, as text.
    pub fn hash_text(digest: &[u8]) -> (text: String)
        ensures
            text@ == ascii_chars(to_hex(digest@)),
    {
        let digits = encode_hex(digest);
        proof {
            lemma_hex_is_ascii(digest@);
        }
        ascii_text(digits.as_slice())
    }

    /// The sizes of the torrent can be addressed on the wire.
    pub open spec fn valid(&self) -> bool {
        self.info.valid()
    }

    /// Number of pieces of the torrent, as a mathematical integer.
    pub open spec fn pieces_count(&self) -> int {
        pieces_needed(self.info.length as int, self.info.piece_length as int)
    }

    /// Size in bytes of the last piece of the torrent.
    pub open spec fn last_piece_len(&self) -> int {
        last_piece_bytes(self.info.length as int, self.info.piece_length as int)
    }

    /// Size in bytes of piece `index`.
    pub open spec fn piece_len(&self, index: int) -> int {
        if index == self.pieces_count() - 1 {
            self.last_piece_len()
        } else {
            self.info.piece_length as int
        }
    }

    /// Both torrents hold the same values, field by field.
    pub open spec fn same_as(&self, other: &Torrent) -> bool {
        &&& self.announce_url@ == other.announce_url@
        &&& self.info_hash@ == other.info_hash@
        &&& self.info.length == other.info.length
        &&& self.info.piece_length == other.info.piece_length
        &&& self.info.name@ == other.info.name@
        &&& self.info.pieces@ == other.info.pieces@
    }

    /// A copy that holds the same values.
    pub fn duplicate(&self) -> (copy: Torrent)
        ensures
            copy.same_as(self),
    {
        Torrent {
            announce_url: self.announce_url.clone(),
            info: Info {
                length: self.info.length,
                name: self.info.name.clone(),
                piece_length: self.info.piece_length,
                pieces: self.info.pieces.clone(),
            },
            info_hash: self.info_hash.clone(),
        }
    }

    /// Tells whether the sizes are `valid`.
    pub fn is_valid(&self) -> (ok: bool)
        ensures
            ok == self.valid(),
    {
        self.info.is_valid()
    }

    /// Number of pieces: the length divided by the piece length, rounded up.
    pub fn total_pieces(&self) -> (total: u32)
        requires
            self.valid(),
        ensures
            total == self.pieces_count(),
    {
        self.info.total_pieces()
    }

    /// Number of bytes of every piece but, possibly, the last.
    pub fn piece_length(&self) -> (length: u32)
        requires
            self.valid(),
        ensures
            length == self.info.piece_length,
    {
        self.info.piece_length as u32
    }

    /// Number of bytes of the file.
    pub fn length(&self) -> (length: u64)
        requires
            self.valid(),
        ensures
            length == self.info.length,
    {
        self.info.length as u64
    }

    /// Size of the last piece: what the pieces before it leave of the file. It
    /// is a whole piece where the length is a multiple of the piece length,
    /// which the length of an empty file is too.
    pub fn last_piece_size(&self) -> (size: u32)
        requires
            self.valid(),
        ensures
            size == self.last_piece_len(),
            0 < size <= self.info.piece_length,
    {
        proof {
            lemma_last_piece_bounds(self.info.length as int, self.info.piece_length as int);
        }
        let rest: i64 = self.info.length % self.info.piece_length;
        if rest == 0 {
            self.info.piece_length as u32
        } else {
            rest as u32
        }
    }

    /// The bytes of the text of the info hash.
    pub open spec fn info_hash_text(&self) -> Seq<u8> {
        vstd::utf8::encode_utf8(self.info_hash@)
    }

    /// The 20 bytes of the info hash, read from its hexadecimal digits. Text
    /// that is not made of pairs of such digits is `InfoHashError`.
    pub fn get_info_hash_as_bytes(&self) -> (result: Result<Vec<u8>, FromTorrentError>)
        ensures
            match result {
                Ok(bytes) => is_hex(self.info_hash_text()) && bytes@ == from_hex(
                    self.info_hash_text(),
                ),
                Err(error) => error == FromTorrentError::InfoHashError && !is_hex(
                    self.info_hash_text(),
                ),
            },
    {
        match decode_hex(self.info_hash.as_str().as_bytes()) {
            Some(bytes) => Ok(bytes),
            None => Err(FromTorrentError::InfoHashError),
        }
    }

    /// Name of the file.
    pub fn name(&self) -> (name: String)
        ensures
            name@ == self.info.name@,
    {
        self.info.name.clone()
    }

    /// The info hash as 40 hexadecimal digits.
    pub fn info_hash(&self) -> (hash: String)
        ensures
            hash@ == self.info_hash@,
    {
        self.info_hash.clone()
    }
}

} // verus!
