use crate::torrent_handler::piece_status::{is_piece_map, PieceStatus};
use std::collections::HashMap;
use vstd::prelude::*;

verus! {

/// The pieces that a peer holds, one bit per piece index, the lowest index in
/// the highest bit of the first byte.
#[derive(Debug, Clone)]
pub struct Bitfield {
    pub bitfield: Vec<u8>,
}

/// Bit `pos` of a byte, counted from the highest bit.
pub open spec fn bit_from_top(byte: u8, pos: int) -> bool
    recommends
        0 <= pos < 8,
{
    (byte >> ((7 - pos) as u8)) & 1u8 == 1u8
}

/// The bytes mark piece `index` as held: byte `index / 8` exists and its bit
/// `index % 8`, counted from the highest, is set. An index past the last byte
/// names no piece.
pub open spec fn bits_hold(bits: Seq<u8>, index: int) -> bool {
    &&& 0 <= index
    &&& index / 8 < bits.len()
    &&& bit_from_top(bits[index / 8], index % 8)
}

/// Number of bytes that one bit for each of `pieces` pieces takes.
pub open spec fn bytes_for(pieces: int) -> int {
    (pieces + 7) / 8
}

proof fn lemma_byte_with_bit(byte: u8, set: u8, read: u8)
    requires
        set < 8,
        read < 8,
    ensures
        ((byte | (1u8 << set)) >> read) & 1u8 == 1u8 <==> (read == set || (byte >> read) & 1u8
            == 1u8),
{
    assert(((byte | (1u8 << set)) >> read) & 1u8 == 1u8 <==> (read == set || (byte >> read) & 1u8
        == 1u8)) by (bit_vector)
        requires
            set < 8,
            read < 8,
    ;
}

proof fn lemma_zero_byte_has_no_bit(read: u8)
    requires
        read < 8,
    ensures
        (0u8 >> read) & 1u8 == 0u8,
{
    assert((0u8 >> read) & 1u8 == 0u8) by (bit_vector)
        requires
            read < 8,
    ;
}

proof fn lemma_full_byte(byte: u8)
    ensures
        byte == 0xFFu8 <==> (forall|pos: int| 0 <= pos < 8 ==> #[trigger] bit_from_top(byte, pos)),
{
    if byte == 0xFFu8 {
        assert forall|pos: int| 0 <= pos < 8 implies #[trigger] bit_from_top(byte, pos) by {
            let shift = (7 - pos) as u8;
            assert((0xFFu8 >> shift) & 1u8 == 1u8) by (bit_vector)
                requires
                    shift < 8,
            ;
        }
    }
    if forall|pos: int| 0 <= pos < 8 ==> #[trigger] bit_from_top(byte, pos) {
        assert(bit_from_top(byte, 0));
        assert(bit_from_top(byte, 1));
        assert(bit_from_top(byte, 2));
        assert(bit_from_top(byte, 3));
        assert(bit_from_top(byte, 4));
        assert(bit_from_top(byte, 5));
        assert(bit_from_top(byte, 6));
        assert(bit_from_top(byte, 7));
        assert(byte == 0xFFu8) by (bit_vector)
            requires
                (byte >> 7u8) & 1u8 == 1u8,
                (byte >> 6u8) & 1u8 == 1u8,
                (byte >> 5u8) & 1u8 == 1u8,
                (byte >> 4u8) & 1u8 == 1u8,
                (byte >> 3u8) & 1u8 == 1u8,
                (byte >> 2u8) & 1u8 == 1u8,
                (byte >> 1u8) & 1u8 == 1u8,
                (byte >> 0u8) & 1u8 == 1u8,
        ;
    }
}

impl Bitfield {
    /// This bitfield marks piece `index` as held.
    pub open spec fn holds(&self, index: int) -> bool {
        bits_hold(self.bitfield@, index)
    }

    /// Wraps the bytes of a bitfield message.
    pub fn new(bitfield: Vec<u8>) -> (created: Bitfield)
        ensures
            created.bitfield == bitfield,
    {
        Bitfield { bitfield }
    }

    /// Tells whether the peer holds the piece with the given index. An index
    /// past the last byte names no piece.
    pub fn has_piece(&self, index: u32) -> (held: bool)
        ensures
            held == self.holds(index as int),
    {
        let byte_index: usize = (index / 8) as usize;
        if byte_index >= self.bitfield.len() {
            return false;
        }
        let byte: u8 = self.bitfield[byte_index];
        let shift: u8 = (7 - (index % 8)) as u8;
        (byte >> shift) & 1u8 == 1u8
    }

    /// Tells whether every byte is `0xFF`. Where the number of pieces is no
    /// multiple of 8 the last byte of a peer that holds everything is not
    /// `0xFF`: the caller accounts for the padding bits.
    pub fn is_complete(&self) -> (full: bool)
        ensures
            full == (forall|i: int| 0 <= i < self.bitfield@.len() ==> self.bitfield@[i] == 0xFFu8),
    {
        let mut at: usize = 0;
        while at < self.bitfield.len()
            invariant
                at <= self.bitfield@.len(),
                forall|i: int| 0 <= i < at ==> self.bitfield@[i] == 0xFFu8,
            decreases self.bitfield@.len() - at,
        {
            if self.bitfield[at] != 0xFFu8 {
                return false;
            }
            at += 1;
        }
        true
    }

    /// The bitfield of a download: one bit for each entry of the status map,
    /// set where the piece is finished, in as few bytes as hold them.
    pub fn from(pieces_status: &HashMap<u32, PieceStatus>) -> (made: Bitfield)
        requires
            is_piece_map(pieces_status@),
        ensures
            made.bitfield@.len() == bytes_for(pieces_status@.len() as int),
            forall|i: int|
                0 <= i < 8 * made.bitfield@.len() ==> (#[trigger] made.holds(i) <==> (i
                    < pieces_status@.len() && pieces_status@[i as u32]
                    == PieceStatus::Finished)),
    {
        broadcast use vstd::std_specs::hash::group_hash_axioms;

        let total: usize = pieces_status.len();
        let bytes_count: usize = if total % 8 == 0 {
            total / 8
        } else {
            total / 8 + 1
        };
        assert(bytes_count == (total + 7) / 8);
        let mut bitfield: Vec<u8> = Vec::new();
        let mut filled: usize = 0;
        while filled < bytes_count
            invariant
                filled <= bytes_count,
                bitfield@.len() == filled,
                forall|b: int| 0 <= b < filled ==> bitfield@[b] == 0u8,
            decreases bytes_count - filled,
        {
            bitfield.push(0u8);
            filled += 1;
        }
        assert forall|i: int| 0 <= i < 8 * bitfield@.len() implies !bits_hold(bitfield@, i) by {
            lemma_zero_byte_has_no_bit((7 - i % 8) as u8);
        }
        let mut index: u32 = 0;
        while (index as usize) < total
            invariant
                is_piece_map(pieces_status@),
                total == pieces_status@.len(),
                index <= total,
                bitfield@.len() == bytes_count,
                bytes_count == (total + 7) / 8,
                forall|i: int|
                    0 <= i < 8 * bitfield@.len() ==> (#[trigger] bits_hold(bitfield@, i) <==> (i
                        < index && pieces_status@[i as u32] == PieceStatus::Finished)),
            decreases total - index,
        {
            let entry = pieces_status.get(&index);
            assert(pieces_status@.contains_key(index));
            let finished: bool = match entry {
                Some(status) => match status {
                    PieceStatus::Finished => true,
                    _ => false,
                },
                None => false,
            };
            assert(finished == (pieces_status@[index] == PieceStatus::Finished));
            if finished {
                let byte_index: usize = (index / 8) as usize;
                let byte: u8 = bitfield[byte_index];
                let shift: u8 = (7 - (index % 8)) as u8;
                let ghost before = bitfield@;
                bitfield.set(byte_index, byte | (1u8 << shift));
                assert forall|i: int| 0 <= i < 8 * bitfield@.len() implies (#[trigger] bits_hold(
                    bitfield@,
                    i,
                ) <==> (i < index + 1 && pieces_status@[i as u32] == PieceStatus::Finished)) by {
                    if i / 8 == byte_index as int {
                        lemma_byte_with_bit(byte, shift, (7 - i % 8) as u8);
                        assert(bits_hold(before, i) <==> (i < index && pieces_status@[i as u32]
                            == PieceStatus::Finished));
                    } else {
                        assert(bits_hold(before, i) <==> (i < index && pieces_status@[i as u32]
                            == PieceStatus::Finished));
                    }
                }
            }
            index += 1;
        }
        Bitfield { bitfield }
    }
}

} // verus!
