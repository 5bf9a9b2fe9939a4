//! Big-endian integers, as the peer protocol writes them.

use vstd::prelude::*;

verus! {

/// The four bytes of a 32-bit integer, the most significant first.
pub open spec fn be32(value: u32) -> Seq<u8> {
    seq![
        (value / 0x100_0000) as u8,
        ((value / 0x1_0000) % 0x100) as u8,
        ((value / 0x100) % 0x100) as u8,
        (value % 0x100) as u8,
    ]
}

/// The integer that four bytes spell, the most significant first.
pub open spec fn from_be32(bytes: Seq<u8>) -> u32
    recommends
        bytes.len() == 4,
{
    (bytes[0] * 0x100_0000 + bytes[1] * 0x1_0000 + bytes[2] * 0x100 + bytes[3]) as u32
}

/// Reading back the bytes of an integer gives the integer.
pub proof fn lemma_be32_read_back(value: u32)
    ensures
        be32(value).len() == 4,
        from_be32(be32(value)) == value,
{
}

/// Appends the four bytes of `value`, the most significant first.
pub fn push_be32(bytes: &mut Vec<u8>, value: u32)
    ensures
        final(bytes)@ == old(bytes)@ + be32(value),
{
    bytes.push((value / 0x100_0000) as u8);
    bytes.push(((value / 0x1_0000) % 0x100) as u8);
    bytes.push(((value / 0x100) % 0x100) as u8);
    bytes.push((value % 0x100) as u8);
    assert(bytes@ =~= old(bytes)@ + be32(value));
}

/// Reads the integer that the four bytes at `at` spell.
pub fn read_be32(bytes: &[u8], at: usize) -> (value: u32)
    requires
        at + 4 <= bytes@.len(),
    ensures
        value == from_be32(bytes@.subrange(at as int, at + 4)),
{
    let b0: u32 = bytes[at] as u32;
    let b1: u32 = bytes[at + 1] as u32;
    let b2: u32 = bytes[at + 2] as u32;
    let b3: u32 = bytes[at + 3] as u32;
    b0 * 0x100_0000 + b1 * 0x1_0000 + b2 * 0x100 + b3
}

/// Appends a copy of `more`.
pub fn push_all(bytes: &mut Vec<u8>, more: &[u8])
    ensures
        final(bytes)@ == old(bytes)@ + more@,
{
    let mut at: usize = 0;
    while at < more.len()
        invariant
            at <= more@.len(),
            bytes@ == old(bytes)@ + more@.subrange(0, at as int),
        decreases more@.len() - at,
    {
        bytes.push(more[at]);
        at += 1;
        assert(bytes@ =~= old(bytes)@ + more@.subrange(0, at as int));
    }
    assert(more@.subrange(0, at as int) =~= more@);
}

/// A copy of the bytes from `from` up to, not including, `to`.
pub fn copy_range(bytes: &[u8], from: usize, to: usize) -> (copy: Vec<u8>)
    requires
        from <= to <= bytes@.len(),
    ensures
        copy@ == bytes@.subrange(from as int, to as int),
{
    let mut copy: Vec<u8> = Vec::new();
    let mut at: usize = from;
    while at < to
        invariant
            from <= at <= to <= bytes@.len(),
            copy@ == bytes@.subrange(from as int, at as int),
        decreases to - at,
    {
        copy.push(bytes[at]);
        at += 1;
        assert(copy@ =~= bytes@.subrange(from as int, at as int));
    }
    copy
}

} // verus!
