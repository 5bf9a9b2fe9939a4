use crate::digest::same_bytes;
use crate::encoder_decoder::bencode::{
    entries_value, fold_entries, lemma_dict_value, lemma_fold_error_stays, lemma_fold_next,
    Bencode, Value,
};
use crate::peer::wire::copy_range;
use crate::text::text_of;
use vstd::prelude::*;
use vstd::string::{StrSliceExecFns, StringSliceAdditionalSpecFns};
use vstd::utf8::{decode_utf8, encode_utf8, valid_utf8};

verus! {

/// Why an `info` dictionary could not be read.
#[derive(Debug, PartialEq, Eq, Clone, Copy, Structural)]
pub enum FromInfoError {
    /// `length` is no number.
    InvalidLength,
    /// `name` is no byte string, or no text.
    InvalidName,
    /// `piece length` is no number.
    InvalidPieceLength,
    /// `pieces` is no byte string.
    InvalidPieces,
    /// The value is no dictionary.
    NotADict,
}

/// An `info` dictionary as contracts see it.
pub struct InfoFields {
    pub length: i64,
    pub name: Seq<char>,
    pub piece_length: i64,
    pub pieces: Seq<u8>,
}

/// What one entry adds to what was read of an `info` dictionary: `length`
/// and `piece length` are numbers, `name` is a byte string that is text,
/// `pieces` a byte string; any other key adds nothing.
pub open spec fn info_entry(fields: InfoFields, key: Seq<u8>, value: Value) -> Result<
    InfoFields,
    FromInfoError,
> {
    if key == "length".spec_bytes() {
        match value {
            Value::Number(length) => Ok(InfoFields { length, ..fields }),
            _ => Err(FromInfoError::InvalidLength),
        }
    } else if key == "name".spec_bytes() {
        match value {
            Value::Text(name) => if valid_utf8(name) {
                Ok(InfoFields { name: decode_utf8(name), ..fields })
            } else {
                Err(FromInfoError::InvalidName)
            },
            _ => Err(FromInfoError::InvalidName),
        }
    } else if key == "piece length".spec_bytes() {
        match value {
            Value::Number(piece_length) => Ok(InfoFields { piece_length, ..fields }),
            _ => Err(FromInfoError::InvalidPieceLength),
        }
    } else if key == "pieces".spec_bytes() {
        match value {
            Value::Text(pieces) => Ok(InfoFields { pieces, ..fields }),
            _ => Err(FromInfoError::InvalidPieces),
        }
    } else {
        Ok(fields)
    }
}

/// The step that reads one entry of an `info` dictionary.
pub open spec fn info_step() -> spec_fn(InfoFields, Seq<u8>, Value) -> Result<
    InfoFields,
    FromInfoError,
> {
    |fields: InfoFields, key: Seq<u8>, value: Value| info_entry(fields, key, value)
}

/// What is known of an `info` dictionary before any entry is read.
pub open spec fn empty_info() -> InfoFields {
    InfoFields { length: 0, name: Seq::empty(), piece_length: 0, pieces: Seq::empty() }
}

/// The `info` dictionary that a bencoded value is: a dictionary, read
/// entry by entry; what is not given stays zero, or empty.
pub open spec fn info_of(value: Value) -> Result<InfoFields, FromInfoError> {
    match value {
        Value::Dict(entries) => fold_entries(entries, empty_info(), info_step()),
        _ => Err(FromInfoError::NotADict),
    }
}

/// The bencoded value of an `info` dictionary: its four entries in the
/// order of their keys.
pub open spec fn info_value(fields: InfoFields) -> Value {
    Value::Dict(
        seq![
            ("length".spec_bytes(), Value::Number(fields.length)),
            ("name".spec_bytes(), Value::Text(encode_utf8(fields.name))),
            ("piece length".spec_bytes(), Value::Number(fields.piece_length)),
            ("pieces".spec_bytes(), Value::Text(fields.pieces)),
        ],
    )
}

/// The `info` dictionary of a single-file torrent.
#[derive(Debug, Clone)]
pub struct Info {
    /// Total number of bytes of the file.
    pub length: i64,
    /// Name of the file.
    pub name: String,
    /// Number of bytes of every piece but, possibly, the last.
    pub piece_length: i64,
    /// The SHA-1 digests of the pieces, 20 bytes each, one after another.
    pub pieces: Vec<u8>,
}

/// Number of pieces of a file of `length` bytes cut every `piece_length` bytes:
/// the quotient rounded up.
pub open spec fn pieces_needed(length: int, piece_length: int) -> int
    recommends
        piece_length > 0,
        length >= 0,
{
    (length + piece_length - 1) / piece_length
}

/// Size of the last piece: what the pieces before it leave of the file.
pub open spec fn last_piece_bytes(length: int, piece_length: int) -> int
    recommends
        piece_length > 0,
        length >= 0,
{
    length - (pieces_needed(length, piece_length) - 1) * piece_length
}

/// The quotient rounded up leaves a last piece that is neither empty nor
/// longer than a piece. It is a whole piece where the length is a multiple
/// of the piece length, which an empty file is too.
pub proof fn lemma_last_piece_bounds(length: int, piece_length: int)
    requires
        piece_length > 0,
        length >= 0,
    ensures
        length > 0 ==> pieces_needed(length, piece_length) >= 1,
        length == 0 ==> pieces_needed(length, piece_length) == 0,
        0 < last_piece_bytes(length, piece_length) <= piece_length,
        length % piece_length == 0 ==> last_piece_bytes(length, piece_length) == piece_length,
        length % piece_length != 0 ==> last_piece_bytes(length, piece_length) == length
            % piece_length,
{
    let n = pieces_needed(length, piece_length);
    let q = length / piece_length;
    let r = length % piece_length;
    lemma_pieces_needed_split(length, piece_length);
    vstd::arithmetic::div_mod::lemma_fundamental_div_mod(length, piece_length);
    vstd::arithmetic::div_mod::lemma_mod_bound(length, piece_length);
    assert((n - 1) * piece_length == piece_length * n - piece_length) by (nonlinear_arith);
    if r == 0 {
        if length > 0 {
            assert(q >= 1) by (nonlinear_arith)
                requires
                    length == piece_length * q,
                    length > 0,
                    piece_length > 0,
            ;
        } else {
            assert(q == 0) by (nonlinear_arith)
                requires
                    0 == piece_length * q,
                    piece_length > 0,
            ;
        }
    } else {
        assert(piece_length * (q + 1) == piece_length * q + piece_length) by (nonlinear_arith);
    }
}

impl View for Info {
    type V = InfoFields;

    open spec fn view(&self) -> InfoFields {
        InfoFields {
            length: self.length,
            name: self.name@,
            piece_length: self.piece_length,
            pieces: self.pieces@,
        }
    }
}

impl Info {
    /// Reads an `info` dictionary. The value has to be a dictionary, and
    /// each of its known entries of the right kind.
    #[verifier::loop_isolation(false)]
    pub fn from(bencode: &Bencode) -> (result: Result<Info, FromInfoError>)
        ensures
            match info_of(bencode.value()) {
                Ok(fields) => result matches Ok(info) && info@ == fields,
                Err(error) => result == Err::<Info, FromInfoError>(error),
            },
    {
        let entries = match bencode {
            Bencode::BDict(entries) => entries,
            _ => { return Err(FromInfoError::NotADict); },
        };
        proof {
            lemma_dict_value(*entries);
        }
        let ghost values = entries_value(entries@);
        let mut info = Info { length: 0, name: String::new(), piece_length: 0, pieces: Vec::new() };
        let mut at: usize = 0;
        while at < entries.len()
            invariant
                at <= entries@.len(),
                fold_entries(values.subrange(0, at as int), empty_info(), info_step()) == Ok::<
                    InfoFields,
                    FromInfoError,
                >(info@),
            decreases entries@.len() - at,
        {
            proof {
                lemma_fold_next(values, empty_info(), info_step(), at as int);
                if fold_entries(values.subrange(0, at + 1), empty_info(), info_step()) is Err {
                    lemma_fold_error_stays(values, empty_info(), info_step(), at + 1);
                }
            }
            let key = entries[at].0.as_slice();
            if same_bytes(key, "length".as_bytes()) {
                match &entries[at].1 {
                    Bencode::BNumber(number) => { info.length = *number; },
                    _ => { return Err(FromInfoError::InvalidLength); },
                }
            } else if same_bytes(key, "name".as_bytes()) {
                match &entries[at].1 {
                    Bencode::BString(name) => {
                        match text_of(name.as_slice()) {
                            Some(text) => { info.name = text; },
                            None => { return Err(FromInfoError::InvalidName); },
                        }
                    },
                    _ => { return Err(FromInfoError::InvalidName); },
                }
            } else if same_bytes(key, "piece length".as_bytes()) {
                match &entries[at].1 {
                    Bencode::BNumber(number) => { info.piece_length = *number; },
                    _ => { return Err(FromInfoError::InvalidPieceLength); },
                }
            } else if same_bytes(key, "pieces".as_bytes()) {
                match &entries[at].1 {
                    Bencode::BString(pieces) => {
                        info.pieces = copy_range(pieces.as_slice(), 0, pieces.len());
                        assert(info.pieces@ =~= pieces@);
                    },
                    _ => { return Err(FromInfoError::InvalidPieces); },
                }
            }
            at += 1;
        }
        proof {
            assert(values.subrange(0, at as int) =~= values);
        }
        Ok(info)
    }

    /// The bencoded value of this dictionary.
    pub fn to_bencode(&self) -> (bencode: Bencode)
        ensures
            bencode.value() == info_value(self@),
    {
        let mut entries: Vec<(Vec<u8>, Bencode)> = Vec::new();
        entries.push(("length".as_bytes_vec(), Bencode::BNumber(self.length)));
        entries.push(("name".as_bytes_vec(), Bencode::BString(self.name.as_str().as_bytes_vec())));
        entries.push(("piece length".as_bytes_vec(), Bencode::BNumber(self.piece_length)));
        entries.push(
            ("pieces".as_bytes_vec(), Bencode::BString(copy_range(
                self.pieces.as_slice(),
                0,
                self.pieces.len(),
            ))),
        );
        proof {
            lemma_dict_value(entries);
            assert(self.pieces@.subrange(0, self.pieces@.len() as int) =~= self.pieces@);
            assert(entries_value(entries@) =~= info_value(self@)->Dict_0);
        }
        Bencode::BDict(entries)
    }

    /// The sizes describe a file that the wire protocol can address: a
    /// positive piece length that fits in 32 bits, a length that is not
    /// negative, and no more pieces than a 32-bit index can name.
    pub open spec fn valid(&self) -> bool {
        &&& 0 < self.piece_length <= u32::MAX
        &&& 0 <= self.length
        &&& pieces_needed(self.length as int, self.piece_length as int) <= u32::MAX
    }

    /// Tells whether the sizes are `valid`.
    pub fn is_valid(&self) -> (ok: bool)
        ensures
            ok == self.valid(),
    {
        if self.piece_length <= 0 || self.piece_length > 0xFFFF_FFFF || self.length < 0 {
            return false;
        }
        let whole: i64 = self.length / self.piece_length;
        let rest: i64 = self.length % self.piece_length;
        proof {
            lemma_pieces_needed_split(self.length as int, self.piece_length as int);
        }
        if rest == 0 {
            whole <= 0xFFFF_FFFF
        } else {
            whole < 0xFFFF_FFFF
        }
    }

    /// The digest that the metainfo holds for piece `index`: the 20 bytes at
    /// `20 * index`, where the list is long enough to hold them.
    pub open spec fn piece_hash(&self, index: int) -> Option<Seq<u8>> {
        if 0 <= index && 20 * index + 20 <= self.pieces@.len() {
            Some(self.pieces@.subrange(20 * index, 20 * index + 20))
        } else {
            None
        }
    }

    /// Number of pieces of the torrent.
    pub fn total_pieces(&self) -> (total: u32)
        requires
            self.valid(),
        ensures
            total == pieces_needed(self.length as int, self.piece_length as int),
    {
        let whole: i64 = self.length / self.piece_length;
        let rest: i64 = self.length % self.piece_length;
        proof {
            lemma_pieces_needed_split(self.length as int, self.piece_length as int);
        }
        if rest == 0 {
            whole as u32
        } else {
            (whole + 1) as u32
        }
    }
}

/// The quotient rounded up is the quotient, plus one where a remainder is left.
pub proof fn lemma_pieces_needed_split(length: int, piece_length: int)
    requires
        piece_length > 0,
        length >= 0,
    ensures
        pieces_needed(length, piece_length) == length / piece_length + (if length % piece_length
            == 0 {
            0int
        } else {
            1int
        }),
        length / piece_length >= 0,
{
    let s = length + piece_length - 1;
    let q = length / piece_length;
    let r = length % piece_length;
    vstd::arithmetic::div_mod::lemma_fundamental_div_mod(length, piece_length);
    vstd::arithmetic::div_mod::lemma_mod_bound(length, piece_length);
    vstd::arithmetic::div_mod::lemma_div_pos_is_pos(length, piece_length);
    if r == 0 {
        vstd::arithmetic::div_mod::lemma_fundamental_div_mod_converse(
            s,
            piece_length,
            q,
            piece_length - 1,
        );
    } else {
        assert(s == piece_length * (q + 1) + (r - 1)) by (nonlinear_arith)
            requires
                s == length + piece_length - 1,
                length == piece_length * q + r,
        ;
        vstd::arithmetic::div_mod::lemma_fundamental_div_mod_converse(
            s,
            piece_length,
            q + 1,
            r - 1,
        );
    }
}

} // verus!
