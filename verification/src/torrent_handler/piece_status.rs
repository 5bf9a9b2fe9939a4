use vstd::prelude::*;

verus! {

/// Where a piece stands in the download.
#[derive(Debug, PartialEq, Eq, Clone, Copy, Structural)]
pub enum PieceStatus {
    /// Validated against its digest and written to the file.
    Finished,
    /// Handed to at least one session, not yet written.
    Downloading,
    /// Not handed to any session.
    Free,
}

/// A map is the status of `n` pieces when its keys are exactly the indices
/// below `n`, where `n` is the number of its entries.
pub open spec fn is_piece_map(m: Map<u32, PieceStatus>) -> bool {
    &&& m.dom().finite()
    &&& m.len() <= u32::MAX
    &&& forall|k: u32| #[trigger] m.contains_key(k) <==> k < m.len()
}

} // verus!
