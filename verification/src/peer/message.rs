//! The length-prefixed messages of the peer protocol.

use crate::peer::wire::{be32, copy_range, from_be32, lemma_be32_read_back, push_all, push_be32, read_be32};
use vstd::prelude::*;

verus! {

/// Number of bytes of a block, the unit in which pieces are requested.
pub const BLOCK_SIZE: u32 = 16384;

/// The longest message body that is read: ten blocks. A longer one is
/// refused before any of it is read.
pub const READ_CAP: u32 = 163840;

/// The kinds of message that carry an id.
#[derive(Debug, PartialEq, Eq, Clone, Copy, Structural)]
pub enum MessageId {
    Choke,
    Unchoke,
    Interested,
    NotInterested,
    Have,
    Bitfield,
    Request,
    Piece,
    Cancel,
    Port,
}

/// A message: its id and the bytes that follow the id.
#[derive(Debug, PartialEq, Eq, Clone)]
pub struct Message {
    pub id: MessageId,
    pub payload: Vec<u8>,
}

/// Why bytes could not be read as a message.
#[derive(Debug, PartialEq, Eq, Clone, Copy, Structural)]
pub enum FromMessageError {
    /// The id byte is none of the protocol's.
    InvalidMessage,
    /// The length prefix announces more than `READ_CAP` bytes.
    OversizePayload,
    /// There are fewer or more bytes than the length prefix announces.
    Truncated,
}

/// A message as contracts see it.
pub struct MessageView {
    pub id: MessageId,
    pub payload: Seq<u8>,
}

/// The byte that stands for an id on the wire.
pub open spec fn id_code(id: MessageId) -> u8 {
    match id {
        MessageId::Choke => 0,
        MessageId::Unchoke => 1,
        MessageId::Interested => 2,
        MessageId::NotInterested => 3,
        MessageId::Have => 4,
        MessageId::Bitfield => 5,
        MessageId::Request => 6,
        MessageId::Piece => 7,
        MessageId::Cancel => 8,
        MessageId::Port => 9,
    }
}

/// The id that a byte stands for, if it stands for one.
pub open spec fn id_of(code: u8) -> Option<MessageId> {
    if code == 0 {
        Some(MessageId::Choke)
    } else if code == 1 {
        Some(MessageId::Unchoke)
    } else if code == 2 {
        Some(MessageId::Interested)
    } else if code == 3 {
        Some(MessageId::NotInterested)
    } else if code == 4 {
        Some(MessageId::Have)
    } else if code == 5 {
        Some(MessageId::Bitfield)
    } else if code == 6 {
        Some(MessageId::Request)
    } else if code == 7 {
        Some(MessageId::Piece)
    } else if code == 8 {
        Some(MessageId::Cancel)
    } else if code == 9 {
        Some(MessageId::Port)
    } else {
        None
    }
}

/// The bytes of a message on the wire: the length of what follows, in four
/// bytes, then the id, then the payload.
pub open spec fn encoded(message: MessageView) -> Seq<u8>
    recommends
        message.payload.len() < u32::MAX,
{
    be32((message.payload.len() + 1) as u32) + seq![id_code(message.id)] + message.payload
}

/// What one whole frame holds: nothing for a keep-alive (length zero), a
/// message otherwise. A length above `READ_CAP` is refused whatever follows.
pub open spec fn decoded(bytes: Seq<u8>) -> Result<Option<MessageView>, FromMessageError> {
    if bytes.len() < 4 {
        Err(FromMessageError::Truncated)
    } else {
        let length = from_be32(bytes.subrange(0, 4));
        if length > READ_CAP {
            Err(FromMessageError::OversizePayload)
        } else if bytes.len() != 4 + length {
            Err(FromMessageError::Truncated)
        } else if length == 0 {
            Ok(None)
        } else {
            match id_of(bytes[4]) {
                Some(id) => Ok(Some(MessageView { id, payload: bytes.subrange(5, 4 + length) })),
                None => Err(FromMessageError::InvalidMessage),
            }
        }
    }
}

/// Every id is read back from its byte.
pub proof fn lemma_id_round_trip(id: MessageId)
    ensures
        id_of(id_code(id)) == Some(id),
{
}

/// Decoding the bytes of a message gives the message back, for every message
/// that is short enough to be read.
pub proof fn lemma_message_round_trip(message: MessageView)
    requires
        message.payload.len() + 1 <= READ_CAP,
    ensures
        decoded(encoded(message)) == Ok::<Option<MessageView>, FromMessageError>(Some(message)),
{
    let bytes = encoded(message);
    let length = (message.payload.len() + 1) as u32;
    lemma_be32_read_back(length);
    assert(bytes.subrange(0, 4) =~= be32(length));
    assert(bytes[4] == id_code(message.id));
    assert(bytes.subrange(5, 4 + length) =~= message.payload);
}

impl MessageId {
    /// The byte that stands for this id on the wire.
    pub fn code(&self) -> (code: u8)
        ensures
            code == id_code(*self),
    {
        match self {
            MessageId::Choke => 0,
            MessageId::Unchoke => 1,
            MessageId::Interested => 2,
            MessageId::NotInterested => 3,
            MessageId::Have => 4,
            MessageId::Bitfield => 5,
            MessageId::Request => 6,
            MessageId::Piece => 7,
            MessageId::Cancel => 8,
            MessageId::Port => 9,
        }
    }

    /// The id that a byte stands for, if it stands for one.
    pub fn from_code(code: u8) -> (id: Option<MessageId>)
        ensures
            id == id_of(code),
    {
        match code {
            0 => Some(MessageId::Choke),
            1 => Some(MessageId::Unchoke),
            2 => Some(MessageId::Interested),
            3 => Some(MessageId::NotInterested),
            4 => Some(MessageId::Have),
            5 => Some(MessageId::Bitfield),
            6 => Some(MessageId::Request),
            7 => Some(MessageId::Piece),
            8 => Some(MessageId::Cancel),
            9 => Some(MessageId::Port),
            _ => None,
        }
    }
}

impl View for Message {
    type V = MessageView;

    open spec fn view(&self) -> MessageView {
        MessageView { id: self.id, payload: self.payload@ }
    }
}

impl Message {
    /// A message with the given id and payload.
    pub fn new(id: MessageId, payload: Vec<u8>) -> (message: Self)
        ensures
            message.id == id,
            message.payload == payload,
    {
        Self { id, payload }
    }

    /// Reads a message from its id byte and the bytes that follow it. A byte
    /// that is none of the protocol's ids is `InvalidMessage`.
    pub fn from_bytes(msg_type: [u8; 1], payload: &[u8]) -> (result: Result<Self, FromMessageError>)
        ensures
            match id_of(msg_type@[0]) {
                Some(id) => result matches Ok(message) && message@ == (MessageView {
                    id,
                    payload: payload@,
                }),
                None => result == Err::<Self, FromMessageError>(FromMessageError::InvalidMessage),
            },
    {
        assert(payload@.subrange(0, payload@.len() as int) =~= payload@);
        match MessageId::from_code(msg_type[0]) {
            Some(id) => Ok(Self { id, payload: copy_range(payload, 0, payload.len()) }),
            None => Err(FromMessageError::InvalidMessage),
        }
    }

    /// The bytes of the message on the wire.
    pub fn to_bytes(&self) -> (bytes: Vec<u8>)
        requires
            self.payload@.len() < u32::MAX,
        ensures
            bytes@ == encoded(self@),
    {
        let mut bytes: Vec<u8> = Vec::new();
        push_be32(&mut bytes, (self.payload.len() + 1) as u32);
        bytes.push(self.id.code());
        push_all(&mut bytes, self.payload.as_slice());
        assert(bytes@ =~= encoded(self@));
        bytes
    }

    /// Reads the length prefix of a frame: the number of bytes that follow
    /// it. A prefix that is not four bytes long is `Truncated`; a length
    /// above `READ_CAP` is `OversizePayload`.
    pub fn frame_length(prefix: &[u8]) -> (result: Result<u32, FromMessageError>)
        ensures
            result == (if prefix@.len() != 4 {
                Err::<u32, FromMessageError>(FromMessageError::Truncated)
            } else if from_be32(prefix@) > READ_CAP {
                Err(FromMessageError::OversizePayload)
            } else {
                Ok(from_be32(prefix@))
            }),
    {
        if prefix.len() != 4 {
            return Err(FromMessageError::Truncated);
        }
        assert(prefix@.subrange(0, 4) =~= prefix@);
        let length: u32 = read_be32(prefix, 0);
        if length > READ_CAP {
            Err(FromMessageError::OversizePayload)
        } else {
            Ok(length)
        }
    }

    /// Reads one whole frame: the length prefix and exactly the bytes that
    /// it announces. A keep-alive holds no message.
    pub fn decode(bytes: &[u8]) -> (result: Result<Option<Self>, FromMessageError>)
        ensures
            match decoded(bytes@) {
                Ok(Some(view)) => result matches Ok(Some(message)) && message@ == view,
                Ok(None) => result matches Ok(None),
                Err(error) => result matches Err(found) && found == error,
            },
    {
        if bytes.len() < 4 {
            return Err(FromMessageError::Truncated);
        }
        let length: u32 = read_be32(bytes, 0);
        if length > READ_CAP {
            return Err(FromMessageError::OversizePayload);
        }
        if bytes.len() - 4 != length as usize {
            return Err(FromMessageError::Truncated);
        }
        if length == 0 {
            return Ok(None);
        }
        match MessageId::from_code(bytes[4]) {
            Some(id) => Ok(Some(Self { id, payload: copy_range(bytes, 5, bytes.len()) })),
            None => Err(FromMessageError::InvalidMessage),
        }
    }
}

/// The payload of a request or cancel message: a block of a piece.
#[derive(Debug, PartialEq, Eq, Clone, Copy, Structural)]
pub struct Request {
    /// Index of the piece.
    pub index: u32,
    /// Offset of the block within the piece.
    pub begin: u32,
    /// Number of bytes of the block.
    pub length: u32,
}

impl Request {
    /// The twelve bytes of the payload: index, begin and length.
    pub open spec fn bytes(&self) -> Seq<u8> {
        be32(self.index) + be32(self.begin) + be32(self.length)
    }

    /// The request that a payload spells, if it is twelve bytes long.
    pub open spec fn parsed(payload: Seq<u8>) -> Option<Request> {
        if payload.len() == 12 {
            Some(
                Request {
                    index: from_be32(payload.subrange(0, 4)),
                    begin: from_be32(payload.subrange(4, 8)),
                    length: from_be32(payload.subrange(8, 12)),
                },
            )
        } else {
            None
        }
    }

    /// Reading the payload of a request gives the request back.
    pub proof fn lemma_round_trip(&self)
        ensures
            Request::parsed(self.bytes()) == Some(*self),
    {
        let payload = self.bytes();
        lemma_be32_read_back(self.index);
        lemma_be32_read_back(self.begin);
        lemma_be32_read_back(self.length);
        assert(payload.subrange(0, 4) =~= be32(self.index));
        assert(payload.subrange(4, 8) =~= be32(self.begin));
        assert(payload.subrange(8, 12) =~= be32(self.length));
    }

    /// A request for `length` bytes at `begin` of piece `index`.
    pub fn new(index: u32, begin: u32, length: u32) -> (request: Self)
        ensures
            request == (Request { index, begin, length }),
    {
        Self { index, begin, length }
    }

    /// The payload of the request: index, begin and length, four bytes each,
    /// the most significant first.
    pub fn to_bytes(&self) -> (bytes: Vec<u8>)
        ensures
            bytes@ == self.bytes(),
    {
        let mut bytes: Vec<u8> = Vec::new();
        push_be32(&mut bytes, self.index);
        push_be32(&mut bytes, self.begin);
        push_be32(&mut bytes, self.length);
        bytes
    }

    /// Reads the payload of a request or cancel message, which is twelve
    /// bytes long.
    pub fn from_bytes(payload: &[u8]) -> (request: Option<Self>)
        ensures
            request == Request::parsed(payload@),
    {
        if payload.len() != 12 {
            return None;
        }
        Some(
            Self {
                index: read_be32(payload, 0),
                begin: read_be32(payload, 4),
                length: read_be32(payload, 8),
            },
        )
    }
}

/// The payload of a piece message: a block of a piece with its place.
#[derive(Debug, PartialEq, Eq, Clone)]
pub struct Block {
    /// Index of the piece.
    pub index: u32,
    /// Offset of the block within the piece.
    pub begin: u32,
    /// The bytes of the block.
    pub block: Vec<u8>,
}

/// The payload of a piece message: index and begin, then the block.
pub open spec fn block_bytes(index: u32, begin: u32, block: Seq<u8>) -> Seq<u8> {
    be32(index) + be32(begin) + block
}

/// Reading the payload of a piece message gives back index, begin and block.
pub proof fn lemma_block_round_trip(index: u32, begin: u32, block: Seq<u8>)
    ensures
        block_bytes(index, begin, block).len() == 8 + block.len(),
        from_be32(block_bytes(index, begin, block).subrange(0, 4)) == index,
        from_be32(block_bytes(index, begin, block).subrange(4, 8)) == begin,
        block_bytes(index, begin, block).subrange(8, 8 + block.len() as int) == block,
{
    let payload = block_bytes(index, begin, block);
    lemma_be32_read_back(index);
    lemma_be32_read_back(begin);
    assert(payload.subrange(0, 4) =~= be32(index));
    assert(payload.subrange(4, 8) =~= be32(begin));
    assert(payload.subrange(8, 8 + block.len() as int) =~= block);
}

impl Block {
    /// The payload of the piece message that carries this block.
    pub fn to_bytes(&self) -> (bytes: Vec<u8>)
        ensures
            bytes@ == block_bytes(self.index, self.begin, self.block@),
    {
        let mut bytes: Vec<u8> = Vec::new();
        push_be32(&mut bytes, self.index);
        push_be32(&mut bytes, self.begin);
        push_all(&mut bytes, self.block.as_slice());
        bytes
    }

    /// Reads the payload of a piece message: index and begin, four bytes
    /// each, and the block after them. A payload of fewer than eight bytes
    /// holds no block.
    pub fn from_bytes(payload: &[u8]) -> (block: Option<Self>)
        ensures
            payload@.len() < 8 ==> block is None,
            payload@.len() >= 8 ==> {
                &&& block matches Some(read)
                &&& read.index == from_be32(payload@.subrange(0, 4))
                &&& read.begin == from_be32(payload@.subrange(4, 8))
                &&& read.block@ == payload@.subrange(8, payload@.len() as int)
            },
    {
        if payload.len() < 8 {
            return None;
        }
        Some(
            Self {
                index: read_be32(payload, 0),
                begin: read_be32(payload, 4),
                block: copy_range(payload, 8, payload.len()),
            },
        )
    }
}

} // verus!
