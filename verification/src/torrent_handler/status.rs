use crate::config::cfg::Cfg;
use crate::digest::{same_bytes, sha1, sha1_digest};
use crate::peer::bitfield::{bits_hold, bytes_for, Bitfield};
use crate::torrent_handler::piece_status::{is_piece_map, PieceStatus};
use crate::torrent_parser::torrent::Torrent;
use rand::seq::IteratorRandom;
use std::collections::HashMap;
use vstd::prelude::*;

verus! {

/// What went wrong in an operation on the status of a torrent.
#[derive(Debug, PartialEq, Eq, Clone, Copy, Structural)]
pub enum AtomicTorrentStatusError {
    /// The lock on the piece map was poisoned by a thread that panicked.
    PoisonedPiecesStatusLock,
    /// The lock on the peer counter was poisoned by a thread that panicked.
    PoisonedCurrentPeersLock,
    /// The index names no piece of the torrent.
    InvalidPieceIndex,
    /// A peer was reported gone while none was connected.
    NoPeersConnected,
    /// The piece was free: nobody had been told to download it.
    PieceWasNotDownloading,
    /// The bytes do not have the digest that the metainfo gives for the piece.
    HashMismatch,
    /// The piece could not be written to the file.
    SavePieceError,
    /// The block lies outside the file or could not be read from it.
    RetrievingPieceError,
    /// The piece is not finished, so there is nothing to read.
    PieceWasNotFinished,
}

/// What the caller has to do after a piece was handed in.
#[derive(Debug, Clone)]
pub enum PieceCommit {
    /// Another session had finished the piece already: nothing is written.
    AlreadyFinished,
    /// The bytes have the right digest: write them to the file `name` at
    /// `offset`, then report the outcome with `piece_saved`.
    Save { name: String, offset: u64, piece: Vec<u8> },
}

/// A block of a finished piece to read from the file.
#[derive(Debug, Clone)]
pub struct BlockRead {
    /// Name of the file under the download directory.
    pub name: String,
    /// Offset of the first byte in the file.
    pub offset: u64,
    /// Number of bytes.
    pub length: usize,
}

/// The status of a torrent as contracts see it.
pub struct StatusView {
    /// Status of each piece, by index.
    pub pieces: Seq<PieceStatus>,
    /// Number of sessions that are connected.
    pub peers: nat,
    /// The bytes that were validated and written for each finished piece.
    pub stored: Map<int, Seq<u8>>,
    /// The piece that waits for the outcome of its write, with its bytes.
    pub pending: Option<(int, Seq<u8>)>,
}

/// Number of pieces that have the given status.
pub open spec fn count_of(pieces: Seq<PieceStatus>, status: PieceStatus) -> nat
    decreases pieces.len(),
{
    if pieces.len() == 0 {
        0
    } else {
        count_of(pieces.drop_last(), status) + if pieces.last() == status {
            1nat
        } else {
            0nat
        }
    }
}

/// Every piece is free, downloading or finished, and in one state only.
pub proof fn lemma_counts_partition(pieces: Seq<PieceStatus>)
    ensures
        count_of(pieces, PieceStatus::Free) + count_of(pieces, PieceStatus::Downloading)
            + count_of(pieces, PieceStatus::Finished) == pieces.len(),
    decreases pieces.len(),
{
    if pieces.len() > 0 {
        lemma_counts_partition(pieces.drop_last());
    }
}

/// No piece is counted for a status exactly when no piece has it, and the
/// count never exceeds the number of pieces.
pub proof fn lemma_count_zero(pieces: Seq<PieceStatus>, status: PieceStatus)
    ensures
        count_of(pieces, status) == 0 <==> (forall|i: int|
            0 <= i < pieces.len() ==> pieces[i] != status),
        count_of(pieces, status) <= pieces.len(),
        count_of(pieces, status) == pieces.len() <==> (forall|i: int|
            0 <= i < pieces.len() ==> pieces[i] == status),
    decreases pieces.len(),
{
    if pieces.len() > 0 {
        let front = pieces.drop_last();
        lemma_count_zero(front, status);
        assert(forall|i: int| 0 <= i < front.len() ==> front[i] == pieces[i]);
        if count_of(pieces, status) == 0 {
            assert forall|i: int| 0 <= i < pieces.len() implies pieces[i] != status by {
                if i < front.len() {
                    assert(front[i] == pieces[i]);
                }
            }
        }
        if count_of(pieces, status) == pieces.len() {
            assert forall|i: int| 0 <= i < pieces.len() implies pieces[i] == status by {
                if i < front.len() {
                    assert(front[i] == pieces[i]);
                }
            }
        }
        if forall|i: int| 0 <= i < pieces.len() ==> pieces[i] == status {
            assert forall|i: int| 0 <= i < front.len() implies front[i] == status by {
                assert(front[i] == pieces[i]);
            }
        }
        if forall|i: int| 0 <= i < pieces.len() ==> pieces[i] != status {
            assert forall|i: int| 0 <= i < front.len() implies front[i] != status by {
                assert(front[i] == pieces[i]);
            }
        }
    }
}

/// Changing one piece moves one unit from the count of its old status to the
/// count of its new one.
pub proof fn lemma_count_update(
    pieces: Seq<PieceStatus>,
    index: int,
    to: PieceStatus,
    status: PieceStatus,
)
    requires
        0 <= index < pieces.len(),
    ensures
        count_of(pieces.update(index, to), status) + (if pieces[index] == status {
            1int
        } else {
            0int
        }) == count_of(pieces, status) + (if to == status {
            1int
        } else {
            0int
        }),
    decreases pieces.len(),
{
    let changed = pieces.update(index, to);
    if index == pieces.len() - 1 {
        assert(changed.drop_last() =~= pieces.drop_last());
    } else {
        assert(changed.drop_last() =~= pieces.drop_last().update(index, to));
        lemma_count_update(pieces.drop_last(), index, to, status);
    }
}

/// Piece `index` is the lowest free piece that the bitfield offers.
pub open spec fn is_first_offered(pieces: Seq<PieceStatus>, bits: Seq<u8>, index: int) -> bool {
    &&& 0 <= index < pieces.len()
    &&& pieces[index] == PieceStatus::Free
    &&& bits_hold(bits, index)
    &&& forall|j: int|
        0 <= j < index ==> !(pieces[j] == PieceStatus::Free && #[trigger] bits_hold(bits, j))
}

/// The bitfield offers no free piece.
pub open spec fn none_offered(pieces: Seq<PieceStatus>, bits: Seq<u8>) -> bool {
    forall|j: int|
        0 <= j < pieces.len() ==> !(pieces[j] == PieceStatus::Free && #[trigger] bits_hold(
            bits,
            j,
        ))
}

/// A piece changes only from free to downloading, from downloading to
/// finished, or from downloading back to free.
pub open spec fn legal_step(before: PieceStatus, after: PieceStatus) -> bool {
    ||| before == after
    ||| before == PieceStatus::Free && after == PieceStatus::Downloading
    ||| before == PieceStatus::Downloading && after == PieceStatus::Finished
    ||| before == PieceStatus::Downloading && after == PieceStatus::Free
}

/// The pieces are the same in number, and each changed legally or not at
/// all.
pub open spec fn legal_change(before: Seq<PieceStatus>, after: Seq<PieceStatus>) -> bool {
    &&& before.len() == after.len()
    &&& forall|i: int| 0 <= i < before.len() ==> legal_step(before[i], #[trigger] after[i])
}

/// What a selection does while free pieces are left: the lowest free piece
/// that the bitfield offers becomes downloading and is returned; where the
/// bitfield offers none, nothing changes and nothing is returned.
pub open spec fn selects_free(
    before: StatusView,
    after: StatusView,
    bits: Seq<u8>,
    picked: Option<u32>,
) -> bool {
    match picked {
        Some(index) => {
            &&& is_first_offered(before.pieces, bits, index as int)
            &&& after == (StatusView {
                pieces: before.pieces.update(index as int, PieceStatus::Downloading),
                ..before
            })
        },
        None => none_offered(before.pieces, bits) && after == before,
    }
}

/// What the end game returns for a drawn index: the index itself where it
/// names a piece that is downloading, nothing otherwise.
pub open spec fn end_game_pick(pieces: Seq<PieceStatus>, drawn: Option<u32>) -> Option<u32> {
    match drawn {
        Some(index) => if index < pieces.len() && pieces[index as int]
            == PieceStatus::Downloading {
            Some(index)
        } else {
            None
        },
        None => None,
    }
}

/// The status of one torrent's download: where each piece stands, how many
/// there are of each kind, and how many sessions are connected.
///
/// Every operation takes the status as it is and leaves it well formed; a
/// program that shares it between sessions keeps it behind one lock.
pub struct AtomicTorrentStatus {
    torrent: Torrent,
    pieces_status: HashMap<u32, PieceStatus>,
    current_peers: usize,
    config: Cfg,
    finished_pieces: usize,
    downloading_pieces: usize,
    free_pieces: usize,
    total_pieces: u32,
    pending: Option<u32>,
    stored: Ghost<Map<int, Seq<u8>>>,
    pending_bytes: Ghost<Seq<u8>>,
}

/// `IteratorRandom::choose` of the `rand` crate over the candidates, with the
/// generator of the current thread. Believed, not proved: nothing is returned
/// exactly when there is no candidate, and what is returned is one of them.
/// Which one is up to the generator.
#[verifier::external_body]
fn choose_candidate(candidates: &Vec<u32>) -> (chosen: Option<u32>)
    ensures
        chosen is None <==> candidates@.len() == 0,
        chosen matches Some(index) ==> candidates@.contains(index),
{
    candidates.iter().copied().choose(&mut rand::thread_rng())
}

impl View for AtomicTorrentStatus {
    type V = StatusView;

    closed spec fn view(&self) -> StatusView {
        StatusView {
            pieces: Seq::new(self.total_pieces as nat, |i: int| self.pieces_status@[i as u32]),
            peers: self.current_peers as nat,
            stored: self.stored@,
            pending: match self.pending {
                Some(index) => Some((index as int, self.pending_bytes@)),
                None => None,
            },
        }
    }
}

impl AtomicTorrentStatus {
    /// The torrent that is downloaded.
    pub closed spec fn torrent(&self) -> Torrent {
        self.torrent
    }

    /// The settings that the download was started with.
    pub closed spec fn settings(&self) -> Cfg {
        self.config
    }

    /// Bytes that have the digest which the metainfo gives for piece `index`
    /// were written for it.
    pub open spec fn validated(&self, index: int) -> bool {
        &&& self@.stored.contains_key(index)
        &&& Some(sha1_digest(self@.stored[index])) == self.torrent().info.piece_hash(index)
    }

    /// The counters agree with the piece map, the map covers every piece of
    /// the torrent, every finished piece was validated and written, and the
    /// piece that waits for its write was validated.
    pub closed spec fn wf(&self) -> bool {
        &&& self.torrent.valid()
        &&& is_piece_map(self.pieces_status@)
        &&& self.pieces_status@.len() == self.total_pieces
        &&& self.total_pieces == self.torrent.pieces_count()
        &&& self.free_pieces == count_of(self@.pieces, PieceStatus::Free)
        &&& self.downloading_pieces == count_of(self@.pieces, PieceStatus::Downloading)
        &&& self.finished_pieces == count_of(self@.pieces, PieceStatus::Finished)
        &&& forall|i: int|
            #![trigger self@.pieces[i]]
            0 <= i < self@.pieces.len() && self@.pieces[i] == PieceStatus::Finished
                ==> self.validated(i)
        &&& self.pending matches Some(index) ==> index < self.total_pieces && Some(
            sha1_digest(self.pending_bytes@),
        ) == self.torrent.info.piece_hash(index as int)
    }

    /// In a well-formed status the number of pieces is that of the torrent.
    pub proof fn lemma_pieces_len(&self)
        requires
            self.wf(),
        ensures
            self@.pieces.len() == self.torrent().pieces_count(),
            self.torrent().valid(),
    {
    }

    /// At every point the free, downloading and finished pieces add up to the
    /// pieces of the torrent.
    pub proof fn lemma_counters_partition(&self)
        requires
            self.wf(),
        ensures
            count_of(self@.pieces, PieceStatus::Free) + count_of(
                self@.pieces,
                PieceStatus::Downloading,
            ) + count_of(self@.pieces, PieceStatus::Finished) == self.torrent().pieces_count(),
    {
        lemma_counts_partition(self@.pieces);
    }

    /// Once the download is finished, every piece of the torrent has been
    /// written with bytes whose digest is the one that the metainfo gives.
    pub proof fn lemma_finished_means_validated(&self)
        requires
            self.wf(),
            count_of(self@.pieces, PieceStatus::Finished) == self.torrent().pieces_count(),
        ensures
            forall|i: int| 0 <= i < self.torrent().pieces_count() ==> #[trigger] self.validated(i),
    {
        lemma_count_zero(self@.pieces, PieceStatus::Finished);
        assert forall|i: int| 0 <= i < self.torrent().pieces_count() implies #[trigger] self.validated(
            i,
        ) by {
            assert(self@.pieces[i] == PieceStatus::Finished);
        }
    }

    /// A piece is finished only with bytes that were validated and written.
    pub proof fn lemma_finished_piece_validated(&self, index: int)
        requires
            self.wf(),
            0 <= index < self@.pieces.len(),
            self@.pieces[index] == PieceStatus::Finished,
        ensures
            self.validated(index),
    {
    }

    /// The status at the start of a download: every piece free, nobody
    /// connected, nothing written.
    pub fn new(torrent: &Torrent, config: Cfg) -> (created: Self)
        requires
            torrent.valid(),
        ensures
            created.wf(),
            created.torrent().same_as(torrent),
            created.settings() == config,
            created@.pieces.len() == torrent.pieces_count(),
            forall|i: int| 0 <= i < created@.pieces.len() ==> created@.pieces[i] == PieceStatus::Free,
            created@.peers == 0,
            created@.stored == Map::<int, Seq<u8>>::empty(),
            created@.pending is None,
    {
        broadcast use vstd::std_specs::hash::group_hash_axioms;

        let total_pieces: u32 = torrent.total_pieces();
        let mut pieces_status: HashMap<u32, PieceStatus> = HashMap::new();
        let mut index: u32 = 0;
        while index < total_pieces
            invariant
                index <= total_pieces,
                pieces_status@.dom().finite(),
                pieces_status@.len() == index,
                forall|k: u32| #[trigger] pieces_status@.contains_key(k) <==> k < index,
                forall|k: u32| k < index ==> pieces_status@[k] == PieceStatus::Free,
            decreases total_pieces - index,
        {
            pieces_status.insert(index, PieceStatus::Free);
            index += 1;
        }
        let created = Self {
            torrent: torrent.duplicate(),
            pieces_status,
            current_peers: 0,
            config,
            finished_pieces: 0,
            downloading_pieces: 0,
            free_pieces: total_pieces as usize,
            total_pieces,
            pending: None,
            stored: Ghost(Map::empty()),
            pending_bytes: Ghost(Seq::empty()),
        };
        proof {
            lemma_count_zero(created@.pieces, PieceStatus::Free);
            lemma_count_zero(created@.pieces, PieceStatus::Downloading);
            lemma_count_zero(created@.pieces, PieceStatus::Finished);
            lemma_counts_partition(created@.pieces);
        }
        created
    }

    /// The torrent that is downloaded.
    pub fn torrent_ref(&self) -> (torrent: &Torrent)
        ensures
            *torrent == self.torrent(),
    {
        &self.torrent
    }

    /// The settings that the download was started with: the directory
    /// that the pieces are written under is taken from them.
    pub fn config(&self) -> (config: &Cfg)
        ensures
            *config == self.settings(),
    {
        &self.config
    }

    /// Tells whether every piece is finished.
    pub fn is_finished(&self) -> (done: bool)
        requires
            self.wf(),
        ensures
            done == (count_of(self@.pieces, PieceStatus::Finished) == self@.pieces.len()),
            done == (forall|i: int|
                0 <= i < self@.pieces.len() ==> self@.pieces[i] == PieceStatus::Finished),
    {
        proof {
            lemma_count_zero(self@.pieces, PieceStatus::Finished);
        }
        self.finished_pieces == self.total_pieces as usize
    }

    /// Number of pieces that are not finished yet.
    pub fn remaining_pieces(&self) -> (left: usize)
        requires
            self.wf(),
        ensures
            left == self@.pieces.len() - count_of(self@.pieces, PieceStatus::Finished),
    {
        proof {
            lemma_count_zero(self@.pieces, PieceStatus::Finished);
        }
        self.total_pieces as usize - self.finished_pieces
    }

    /// Number of pieces that no session has been told to download.
    pub fn free_pieces(&self) -> (free: usize)
        requires
            self.wf(),
        ensures
            free == count_of(self@.pieces, PieceStatus::Free),
    {
        self.free_pieces
    }

    /// Number of pieces that sessions are downloading.
    pub fn downloading_pieces(&self) -> (downloading: usize)
        requires
            self.wf(),
        ensures
            downloading == count_of(self@.pieces, PieceStatus::Downloading),
    {
        self.downloading_pieces
    }

    /// Number of pieces that are finished.
    pub fn downloaded_pieces(&self) -> (finished: usize)
        requires
            self.wf(),
        ensures
            finished == count_of(self@.pieces, PieceStatus::Finished),
    {
        self.finished_pieces
    }

    /// The numbers of free, downloading and finished pieces, which add up to
    /// the pieces of the torrent.
    pub fn counters(&self) -> (counters: (usize, usize, usize))
        requires
            self.wf(),
        ensures
            counters.0 == count_of(self@.pieces, PieceStatus::Free),
            counters.1 == count_of(self@.pieces, PieceStatus::Downloading),
            counters.2 == count_of(self@.pieces, PieceStatus::Finished),
            counters.0 + counters.1 + counters.2 == self@.pieces.len(),
    {
        proof {
            lemma_counts_partition(self@.pieces);
        }
        (self.free_pieces, self.downloading_pieces, self.finished_pieces)
    }

    /// Number of pieces of the torrent.
    pub fn total_pieces(&self) -> (total: u32)
        requires
            self.wf(),
        ensures
            total == self@.pieces.len(),
    {
        self.total_pieces
    }

    /// Status of the piece with the given index, if the torrent has it.
    pub fn piece_status(&self, index: u32) -> (status: Option<PieceStatus>)
        requires
            self.wf(),
        ensures
            status == (if index < self@.pieces.len() {
                Some(self@.pieces[index as int])
            } else {
                None
            }),
    {
        broadcast use vstd::std_specs::hash::group_hash_axioms;

        match self.pieces_status.get(&index) {
            Some(status) => Some(*status),
            None => None,
        }
    }

    /// Counts a session that has connected. The counter stops at the largest
    /// number that it can hold.
    pub fn peer_connected(&mut self)
        requires
            old(self).wf(),
        ensures
            final(self).wf(),
            final(self).torrent() == old(self).torrent(),
            final(self).settings() == old(self).settings(),
            legal_change(old(self)@.pieces, final(self)@.pieces),
            final(self)@ == (StatusView {
                peers: if old(self)@.peers < usize::MAX {
                    old(self)@.peers + 1
                } else {
                    old(self)@.peers
                },
                ..old(self)@
            }),
    {
        if self.current_peers < usize::MAX {
            self.current_peers = self.current_peers + 1;
        }
    }

    /// Counts a session that has ended. With nobody connected there is
    /// nothing to count down: `NoPeersConnected`.
    pub fn peer_disconnected(&mut self) -> (result: Result<(), AtomicTorrentStatusError>)
        requires
            old(self).wf(),
        ensures
            final(self).wf(),
            final(self).torrent() == old(self).torrent(),
            final(self).settings() == old(self).settings(),
            legal_change(old(self)@.pieces, final(self)@.pieces),
            old(self)@.peers == 0 ==> result == Err::<(), AtomicTorrentStatusError>(
                AtomicTorrentStatusError::NoPeersConnected,
            ) && final(self)@ == old(self)@,
            old(self)@.peers > 0 ==> result == Ok::<(), AtomicTorrentStatusError>(())
                && final(self)@ == (StatusView {
                peers: (old(self)@.peers - 1) as nat,
                ..old(self)@
            }),
    {
        if self.current_peers == 0 {
            return Err(AtomicTorrentStatusError::NoPeersConnected);
        }
        self.current_peers = self.current_peers - 1;
        Ok(())
    }

    /// Number of sessions that are connected.
    pub fn current_peers(&self) -> (peers: usize)
        ensures
            peers == self@.peers,
    {
        self.current_peers
    }

    /// Writes the new status of a piece into the map.
    fn set_piece(&mut self, index: u32, status: PieceStatus)
        requires
            is_piece_map(old(self).pieces_status@),
            old(self).pieces_status@.len() == old(self).total_pieces,
            index < old(self).total_pieces,
        ensures
            is_piece_map(final(self).pieces_status@),
            final(self).pieces_status@.len() == final(self).total_pieces,
            final(self)@ == (StatusView {
                pieces: old(self)@.pieces.update(index as int, status),
                ..old(self)@
            }),
            final(self).torrent == old(self).torrent,
            final(self).config == old(self).config,
            final(self).total_pieces == old(self).total_pieces,
            final(self).free_pieces == old(self).free_pieces,
            final(self).downloading_pieces == old(self).downloading_pieces,
            final(self).finished_pieces == old(self).finished_pieces,
            final(self).pending == old(self).pending,
            final(self).pending_bytes == old(self).pending_bytes,
            final(self).stored == old(self).stored,
    {
        broadcast use vstd::std_specs::hash::group_hash_axioms;

        assert(old(self).pieces_status@.contains_key(index));
        self.pieces_status.insert(index, status);
        assert(self.pieces_status@.dom() =~= old(self).pieces_status@.dom());
        assert(self@.pieces =~= old(self)@.pieces.update(index as int, status));
    }

    /// The indices of the pieces that are downloading, in increasing order.
    fn downloading_indices(&self) -> (found: Vec<u32>)
        requires
            self.wf(),
        ensures
            forall|index: u32|
                found@.contains(index) <==> (index < self@.pieces.len() && self@.pieces[index as int]
                    == PieceStatus::Downloading),
    {
        broadcast use vstd::std_specs::hash::group_hash_axioms;

        let mut found: Vec<u32> = Vec::new();
        let mut index: u32 = 0;
        while index < self.total_pieces
            invariant
                self.wf(),
                index <= self.total_pieces,
                forall|k: u32|
                    found@.contains(k) <==> (k < index && self@.pieces[k as int]
                        == PieceStatus::Downloading),
            decreases self.total_pieces - index,
        {
            let entry = self.pieces_status.get(&index);
            assert(self.pieces_status@.contains_key(index));
            let downloading: bool = match entry {
                Some(status) => *status == PieceStatus::Downloading,
                None => false,
            };
            let ghost before = found@;
            if downloading {
                found.push(index);
                assert forall|k: u32| found@.contains(k) <==> (k < index + 1 && self@.pieces[k as int]
                    == PieceStatus::Downloading) by {
                    if before.contains(k) {
                        let at = choose|at: int| 0 <= at < before.len() && before[at] == k;
                        assert(found@[at] == k);
                    }
                    if k == index {
                        assert(found@[found@.len() - 1] == k);
                    }
                    if found@.contains(k) {
                        let at = choose|at: int| 0 <= at < found@.len() && found@[at] == k;
                        if at < before.len() {
                            assert(before[at] == k);
                        }
                    }
                }
            }
            index += 1;
        }
        found
    }

    /// Selects the piece that a session downloads next from a peer, given the
    /// index that was drawn for the end game.
    ///
    /// While free pieces are left, the lowest free piece that the peer's
    /// bitfield offers becomes downloading and is returned, and the drawn
    /// index is not looked at. With no free piece left the status does not
    /// change: the drawn index is returned where it names a piece that is
    /// downloading, nothing otherwise.
    pub fn select_piece_from(&mut self, bitfield: &Bitfield, drawn: Option<u32>) -> (picked: Option<
        u32,
    >)
        requires
            old(self).wf(),
        ensures
            final(self).wf(),
            final(self).torrent() == old(self).torrent(),
            final(self).settings() == old(self).settings(),
            legal_change(old(self)@.pieces, final(self)@.pieces),
            count_of(old(self)@.pieces, PieceStatus::Free) > 0 ==> selects_free(
                old(self)@,
                final(self)@,
                bitfield.bitfield@,
                picked,
            ),
            count_of(old(self)@.pieces, PieceStatus::Free) == 0 ==> final(self)@ == old(self)@
                && picked == end_game_pick(old(self)@.pieces, drawn),
    {
        broadcast use vstd::std_specs::hash::group_hash_axioms;

        if self.free_pieces == 0 {
            return match drawn {
                Some(index) => {
                    let entry = self.pieces_status.get(&index);
                    match entry {
                        Some(status) => if *status == PieceStatus::Downloading {
                            Some(index)
                        } else {
                            None
                        },
                        None => None,
                    }
                },
                None => None,
            };
        }
        let mut index: u32 = 0;
        while index < self.total_pieces
            invariant
                self.wf(),
                self == old(self),
                index <= self.total_pieces,
                forall|j: int|
                    0 <= j < index ==> !(self@.pieces[j] == PieceStatus::Free
                        && #[trigger] bits_hold(bitfield.bitfield@, j)),
            decreases self.total_pieces - index,
        {
            let entry = self.pieces_status.get(&index);
            assert(self.pieces_status@.contains_key(index));
            let free: bool = match entry {
                Some(status) => *status == PieceStatus::Free,
                None => false,
            };
            if free && bitfield.has_piece(index) {
                proof {
                    lemma_count_update(
                        self@.pieces,
                        index as int,
                        PieceStatus::Downloading,
                        PieceStatus::Free,
                    );
                    lemma_count_update(
                        self@.pieces,
                        index as int,
                        PieceStatus::Downloading,
                        PieceStatus::Downloading,
                    );
                    lemma_count_update(
                        self@.pieces,
                        index as int,
                        PieceStatus::Downloading,
                        PieceStatus::Finished,
                    );
                    lemma_count_zero(
                        self@.pieces.update(index as int, PieceStatus::Downloading),
                        PieceStatus::Downloading,
                    );
                }
                self.set_piece(index, PieceStatus::Downloading);
                self.free_pieces = self.free_pieces - 1;
                self.downloading_pieces = self.downloading_pieces + 1;
                assert(self.wf()) by {
                    assert forall|i: int|
                        #![trigger self@.pieces[i]]
                        0 <= i < self@.pieces.len() && self@.pieces[i]
                            == PieceStatus::Finished implies self.validated(i) by {
                        assert(old(self)@.pieces[i] == PieceStatus::Finished);
                        assert(old(self).validated(i));
                    }
                }
                return Some(index);
            }
            index += 1;
        }
        None
    }

    /// Selects the piece that a session downloads next from a peer.
    ///
    /// While free pieces are left, the lowest free piece that the peer's
    /// bitfield offers becomes downloading and is returned; where the
    /// bitfield offers none, nothing is returned. With no free piece left
    /// (the end game) the status does not change and one of the pieces that
    /// are downloading is returned, drawn at random; nothing where none is.
    pub fn select_piece(&mut self, bitfield: &Bitfield) -> (result: Result<
        Option<u32>,
        AtomicTorrentStatusError,
    >)
        requires
            old(self).wf(),
        ensures
            final(self).wf(),
            final(self).torrent() == old(self).torrent(),
            final(self).settings() == old(self).settings(),
            legal_change(old(self)@.pieces, final(self)@.pieces),
            result is Ok,
            count_of(old(self)@.pieces, PieceStatus::Free) > 0 ==> selects_free(
                old(self)@,
                final(self)@,
                bitfield.bitfield@,
                result->Ok_0,
            ),
            count_of(old(self)@.pieces, PieceStatus::Free) == 0 ==> {
                &&& final(self)@ == old(self)@
                &&& (result->Ok_0 is None <==> count_of(
                    old(self)@.pieces,
                    PieceStatus::Downloading,
                ) == 0)
                &&& (result->Ok_0 matches Some(index) ==> index < old(self)@.pieces.len() && old(self)@.pieces[index as int] == PieceStatus::Downloading)
            },
    {
        let drawn: Option<u32> = if self.free_pieces == 0 {
            let candidates = self.downloading_indices();
            proof {
                lemma_count_zero(self@.pieces, PieceStatus::Downloading);
                if candidates@.len() > 0 {
                    assert(candidates@.contains(candidates@[0]));
                }
                if exists|i: int|
                    0 <= i < self@.pieces.len() && self@.pieces[i] == PieceStatus::Downloading {
                    let i = choose|i: int|
                        0 <= i < self@.pieces.len() && self@.pieces[i] == PieceStatus::Downloading;
                    assert(candidates@.contains(i as u32));
                }
            }
            choose_candidate(&candidates)
        } else {
            None
        };
        Ok(self.select_piece_from(bitfield, drawn))
    }

    /// The digest that the metainfo gives for a piece, if it gives one.
    fn expected_hash(&self, index: u32) -> (hash: Option<&[u8]>)
        ensures
            match hash {
                Some(bytes) => Some(bytes@) == self.torrent.info.piece_hash(index as int),
                None => self.torrent.info.piece_hash(index as int) is None,
            },
    {
        let start: u64 = 20 * (index as u64);
        let pieces = self.torrent.info.pieces.as_slice();
        if start + 20 <= pieces.len() as u64 {
            Some(vstd::slice::slice_subrange(pieces, start as usize, (start + 20) as usize))
        } else {
            None
        }
    }

    /// Takes a downloaded piece together with its SHA-1 digest, and says what
    /// is to be done with it.
    ///
    /// A piece that is finished already needs nothing more. A piece that is
    /// downloading is compared with the digest that the metainfo gives for
    /// it: where they agree the bytes are handed back to be written at
    /// `index * piece_length`, and the piece waits for `piece_saved`; where
    /// they differ, or the metainfo has no digest for the piece, the piece
    /// stays downloading and the error is `HashMismatch`.
    pub fn piece_downloaded_with_digest(
        &mut self,
        index: u32,
        piece: Vec<u8>,
        digest: &Vec<u8>,
    ) -> (result: Result<PieceCommit, AtomicTorrentStatusError>)
        requires
            old(self).wf(),
            digest@ == sha1_digest(piece@),
        ensures
            final(self).wf(),
            final(self).torrent() == old(self).torrent(),
            final(self).settings() == old(self).settings(),
            legal_change(old(self)@.pieces, final(self)@.pieces),
            index >= old(self)@.pieces.len() ==> result == Err::<
                PieceCommit,
                AtomicTorrentStatusError,
            >(AtomicTorrentStatusError::InvalidPieceIndex) && final(self)@ == old(self)@,
            index < old(self)@.pieces.len() ==> match old(self)@.pieces[index as int] {
                PieceStatus::Free => result == Err::<PieceCommit, AtomicTorrentStatusError>(
                    AtomicTorrentStatusError::PieceWasNotDownloading,
                ) && final(self)@ == old(self)@,
                PieceStatus::Finished => result matches Ok(PieceCommit::AlreadyFinished) && final(self)@ == old(self)@,
                PieceStatus::Downloading => if Some(digest@) == old(self).torrent().info.piece_hash(index as int) {
                    &&& result matches Ok(PieceCommit::Save { name, offset, piece: bytes })
                    &&& name@ == old(self).torrent().info.name@
                    &&& offset == index * old(self).torrent().info.piece_length
                    &&& bytes@ == piece@
                    &&& final(self)@ == (StatusView {
                        pending: Some((index as int, piece@)),
                        ..old(self)@
                    })
                } else {
                    result == Err::<PieceCommit, AtomicTorrentStatusError>(
                        AtomicTorrentStatusError::HashMismatch,
                    ) && final(self)@ == old(self)@
                },
            },
    {
        broadcast use vstd::std_specs::hash::group_hash_axioms;

        let status: PieceStatus = match self.pieces_status.get(&index) {
            Some(status) => *status,
            None => { return Err(AtomicTorrentStatusError::InvalidPieceIndex); },
        };
        match status {
            PieceStatus::Free => Err(AtomicTorrentStatusError::PieceWasNotDownloading),
            PieceStatus::Finished => Ok(PieceCommit::AlreadyFinished),
            PieceStatus::Downloading => {
                let matches: bool = match self.expected_hash(index) {
                    Some(expected) => same_bytes(expected, digest.as_slice()),
                    None => false,
                };
                if !matches {
                    return Err(AtomicTorrentStatusError::HashMismatch);
                }
                let piece_length: u64 = self.torrent.piece_length() as u64;
                assert(index * piece_length <= 0xFFFF_FFFE_0000_0001) by (nonlinear_arith)
                    requires
                        0 <= index <= 0xFFFF_FFFF,
                        0 <= piece_length <= 0xFFFF_FFFF,
                ;
                let offset: u64 = (index as u64) * piece_length;
                self.pending = Some(index);
                self.pending_bytes = Ghost(piece@);
                assert(self@.pieces =~= old(self)@.pieces);
                Ok(PieceCommit::Save { name: self.torrent.name(), offset, piece })
            },
        }
    }

    /// Takes a downloaded piece and says what is to be done with it.
    ///
    /// The SHA-1 digest of the bytes is computed and the piece is handled as
    /// `piece_downloaded_with_digest` says: an index that names no piece is
    /// `InvalidPieceIndex`, a free piece `PieceWasNotDownloading`, a finished
    /// one needs nothing more, and a piece that is downloading is to be
    /// written if its digest is the one of the metainfo, `HashMismatch` if
    /// not.
    pub fn piece_downloaded(&mut self, index: u32, piece: Vec<u8>) -> (result: Result<
        PieceCommit,
        AtomicTorrentStatusError,
    >)
        requires
            old(self).wf(),
        ensures
            final(self).wf(),
            final(self).torrent() == old(self).torrent(),
            final(self).settings() == old(self).settings(),
            legal_change(old(self)@.pieces, final(self)@.pieces),
            index >= old(self)@.pieces.len() ==> result == Err::<
                PieceCommit,
                AtomicTorrentStatusError,
            >(AtomicTorrentStatusError::InvalidPieceIndex) && final(self)@ == old(self)@,
            index < old(self)@.pieces.len() ==> match old(self)@.pieces[index as int] {
                PieceStatus::Free => result == Err::<PieceCommit, AtomicTorrentStatusError>(
                    AtomicTorrentStatusError::PieceWasNotDownloading,
                ) && final(self)@ == old(self)@,
                PieceStatus::Finished => result matches Ok(PieceCommit::AlreadyFinished) && final(self)@ == old(self)@,
                PieceStatus::Downloading => if Some(sha1_digest(piece@)) == old(self).torrent().info.piece_hash(index as int) {
                    &&& result matches Ok(PieceCommit::Save { name, offset, piece: bytes })
                    &&& name@ == old(self).torrent().info.name@
                    &&& offset == index * old(self).torrent().info.piece_length
                    &&& bytes@ == piece@
                    &&& final(self)@ == (StatusView {
                        pending: Some((index as int, piece@)),
                        ..old(self)@
                    })
                } else {
                    result == Err::<PieceCommit, AtomicTorrentStatusError>(
                        AtomicTorrentStatusError::HashMismatch,
                    ) && final(self)@ == old(self)@
                },
            },
    {
        match self.piece_status(index) {
            None => Err(AtomicTorrentStatusError::InvalidPieceIndex),
            Some(PieceStatus::Free) => Err(AtomicTorrentStatusError::PieceWasNotDownloading),
            Some(PieceStatus::Finished) => Ok(PieceCommit::AlreadyFinished),
            Some(PieceStatus::Downloading) => {
                let digest = sha1(piece.as_slice());
                self.piece_downloaded_with_digest(index, piece, &digest)
            },
        }
    }

    /// Takes the outcome of the write that `piece_downloaded` asked for.
    ///
    /// No piece waits after this call. Where the write succeeded and the
    /// piece is still downloading, it becomes finished. Where it is finished
    /// already (another session was faster), nothing changes. A write that
    /// failed leaves the piece as it is: `SavePieceError`. With no piece
    /// waiting, or with the piece set free again meanwhile, the error is
    /// `PieceWasNotDownloading`.
    pub fn piece_saved(&mut self, saved: bool) -> (result: Result<(), AtomicTorrentStatusError>)
        requires
            old(self).wf(),
        ensures
            final(self).wf(),
            final(self).torrent() == old(self).torrent(),
            final(self).settings() == old(self).settings(),
            legal_change(old(self)@.pieces, final(self)@.pieces),
            match old(self)@.pending {
                None => result == Err::<(), AtomicTorrentStatusError>(
                    AtomicTorrentStatusError::PieceWasNotDownloading,
                ) && final(self)@ == old(self)@,
                Some((index, bytes)) => {
                    let idle = StatusView { pending: None, ..old(self)@ };
                    if !saved {
                        result == Err::<(), AtomicTorrentStatusError>(
                            AtomicTorrentStatusError::SavePieceError,
                        ) && final(self)@ == idle
                    } else {
                        match old(self)@.pieces[index] {
                            PieceStatus::Downloading => result == Ok::<
                                (),
                                AtomicTorrentStatusError,
                            >(()) && final(self)@ == (StatusView {
                                pieces: idle.pieces.update(index, PieceStatus::Finished),
                                stored: idle.stored.insert(index, bytes),
                                ..idle
                            }),
                            PieceStatus::Finished => result == Ok::<(), AtomicTorrentStatusError>(
                                (),
                            ) && final(self)@ == idle,
                            PieceStatus::Free => result == Err::<(), AtomicTorrentStatusError>(
                                AtomicTorrentStatusError::PieceWasNotDownloading,
                            ) && final(self)@ == idle,
                        }
                    }
                },
            },
    {
        broadcast use vstd::std_specs::hash::group_hash_axioms;

        let index: u32 = match self.pending {
            Some(index) => index,
            None => { return Err(AtomicTorrentStatusError::PieceWasNotDownloading); },
        };
        self.pending = None;
        assert(self@.pieces =~= old(self)@.pieces);
        assert(self.wf()) by {
            assert forall|i: int|
                #![trigger self@.pieces[i]]
                0 <= i < self@.pieces.len() && self@.pieces[i]
                    == PieceStatus::Finished implies self.validated(i) by {
                assert(old(self)@.pieces[i] == PieceStatus::Finished);
                assert(old(self).validated(i));
            }
        }
        if !saved {
            return Err(AtomicTorrentStatusError::SavePieceError);
        }
        let entry = self.pieces_status.get(&index);
        assert(self.pieces_status@.contains_key(index));
        let status: PieceStatus = match entry {
            Some(status) => *status,
            None => { return Err(AtomicTorrentStatusError::PieceWasNotDownloading); },
        };
        match status {
            PieceStatus::Free => Err(AtomicTorrentStatusError::PieceWasNotDownloading),
            PieceStatus::Finished => Ok(()),
            PieceStatus::Downloading => {
                let ghost idle = self@;
                proof {
                    lemma_count_update(
                        self@.pieces,
                        index as int,
                        PieceStatus::Finished,
                        PieceStatus::Free,
                    );
                    lemma_count_update(
                        self@.pieces,
                        index as int,
                        PieceStatus::Finished,
                        PieceStatus::Downloading,
                    );
                    lemma_count_update(
                        self@.pieces,
                        index as int,
                        PieceStatus::Finished,
                        PieceStatus::Finished,
                    );
                    lemma_count_zero(
                        self@.pieces.update(index as int, PieceStatus::Finished),
                        PieceStatus::Finished,
                    );
                }
                self.set_piece(index, PieceStatus::Finished);
                self.downloading_pieces = self.downloading_pieces - 1;
                self.finished_pieces = self.finished_pieces + 1;
                self.stored = Ghost(self.stored@.insert(index as int, old(self).pending_bytes@));
                assert(self@.pieces =~= idle.pieces.update(index as int, PieceStatus::Finished));
                assert(self.wf()) by {
                    assert forall|i: int|
                        #![trigger self@.pieces[i]]
                        0 <= i < self@.pieces.len() && self@.pieces[i]
                            == PieceStatus::Finished implies self.validated(i) by {
                        if i != index as int {
                            assert(old(self)@.pieces[i] == PieceStatus::Finished);
                            assert(old(self).validated(i));
                        }
                    }
                }
                Ok(())
            },
        }
    }

    /// Gives up the download of a piece, so that it can be selected again.
    ///
    /// A piece that is downloading becomes free. A finished piece stays
    /// finished and the call succeeds: in the end game another session may
    /// have finished it. A free piece is `PieceWasNotDownloading`, an index
    /// that names no piece `InvalidPieceIndex`.
    pub fn piece_aborted(&mut self, index: u32) -> (result: Result<(), AtomicTorrentStatusError>)
        requires
            old(self).wf(),
        ensures
            final(self).wf(),
            final(self).torrent() == old(self).torrent(),
            final(self).settings() == old(self).settings(),
            legal_change(old(self)@.pieces, final(self)@.pieces),
            index >= old(self)@.pieces.len() ==> result == Err::<(), AtomicTorrentStatusError>(
                AtomicTorrentStatusError::InvalidPieceIndex,
            ) && final(self)@ == old(self)@,
            index < old(self)@.pieces.len() ==> match old(self)@.pieces[index as int] {
                PieceStatus::Free => result == Err::<(), AtomicTorrentStatusError>(
                    AtomicTorrentStatusError::PieceWasNotDownloading,
                ) && final(self)@ == old(self)@,
                PieceStatus::Finished => result == Ok::<(), AtomicTorrentStatusError>(())
                    && final(self)@ == old(self)@,
                PieceStatus::Downloading => result == Ok::<(), AtomicTorrentStatusError>(())
                    && final(self)@ == (StatusView {
                    pieces: old(self)@.pieces.update(index as int, PieceStatus::Free),
                    ..old(self)@
                }),
            },
    {
        broadcast use vstd::std_specs::hash::group_hash_axioms;

        let status: PieceStatus = match self.pieces_status.get(&index) {
            Some(status) => *status,
            None => { return Err(AtomicTorrentStatusError::InvalidPieceIndex); },
        };
        match status {
            PieceStatus::Free => Err(AtomicTorrentStatusError::PieceWasNotDownloading),
            PieceStatus::Finished => Ok(()),
            PieceStatus::Downloading => {
                proof {
                    lemma_count_update(
                        self@.pieces,
                        index as int,
                        PieceStatus::Free,
                        PieceStatus::Free,
                    );
                    lemma_count_update(
                        self@.pieces,
                        index as int,
                        PieceStatus::Free,
                        PieceStatus::Downloading,
                    );
                    lemma_count_update(
                        self@.pieces,
                        index as int,
                        PieceStatus::Free,
                        PieceStatus::Finished,
                    );
                    lemma_count_zero(
                        self@.pieces.update(index as int, PieceStatus::Free),
                        PieceStatus::Free,
                    );
                }
                self.set_piece(index, PieceStatus::Free);
                self.downloading_pieces = self.downloading_pieces - 1;
                self.free_pieces = self.free_pieces + 1;
                assert(self.wf()) by {
                    assert forall|i: int|
                        #![trigger self@.pieces[i]]
                        0 <= i < self@.pieces.len() && self@.pieces[i]
                            == PieceStatus::Finished implies self.validated(i) by {
                        assert(old(self)@.pieces[i] == PieceStatus::Finished);
                        assert(old(self).validated(i));
                    }
                }
                Ok(())
            },
        }
    }

    /// Says where a block of a finished piece is to be read from.
    ///
    /// The block is the `length` bytes at `offset` of the file. An index that
    /// names no piece is `InvalidPieceIndex`, a piece that is not finished
    /// `PieceWasNotFinished`, and a block that does not lie within the file
    /// `RetrievingPieceError`.
    pub fn get_piece(&self, index: u32, offset: u64, length: usize) -> (result: Result<
        BlockRead,
        AtomicTorrentStatusError,
    >)
        requires
            self.wf(),
        ensures
            index >= self@.pieces.len() ==> result == Err::<BlockRead, AtomicTorrentStatusError>(
                AtomicTorrentStatusError::InvalidPieceIndex,
            ),
            index < self@.pieces.len() && self@.pieces[index as int] != PieceStatus::Finished
                ==> result == Err::<BlockRead, AtomicTorrentStatusError>(
                AtomicTorrentStatusError::PieceWasNotFinished,
            ),
            index < self@.pieces.len() && self@.pieces[index as int] == PieceStatus::Finished
                && offset + length > self.torrent().info.length ==> result == Err::<
                BlockRead,
                AtomicTorrentStatusError,
            >(AtomicTorrentStatusError::RetrievingPieceError),
            index < self@.pieces.len() && self@.pieces[index as int] == PieceStatus::Finished
                && offset + length <= self.torrent().info.length ==> {
                &&& result matches Ok(read)
                &&& read.name@ == self.torrent().info.name@
                &&& read.offset == offset
                &&& read.length == length
            },
    {
        broadcast use vstd::std_specs::hash::group_hash_axioms;

        let status: PieceStatus = match self.pieces_status.get(&index) {
            Some(status) => *status,
            None => { return Err(AtomicTorrentStatusError::InvalidPieceIndex); },
        };
        match status {
            PieceStatus::Finished => {},
            _ => { return Err(AtomicTorrentStatusError::PieceWasNotFinished); },
        }
        let file_length: u64 = self.torrent.length();
        if offset > file_length || length as u64 > file_length - offset {
            return Err(AtomicTorrentStatusError::RetrievingPieceError);
        }
        Ok(BlockRead { name: self.torrent.name(), offset, length })
    }

    /// The bitfield of the download: one bit per piece, set where the piece
    /// is finished, with the bits that pad the last byte left at zero.
    pub fn get_bitfield(&self) -> (result: Result<Bitfield, AtomicTorrentStatusError>)
        requires
            self.wf(),
        ensures
            result matches Ok(bitfield) && bitfield.bitfield@.len() == bytes_for(
                self@.pieces.len() as int,
            ) && forall|i: int|
                0 <= i < 8 * bitfield.bitfield@.len() ==> (#[trigger] bitfield.holds(i) <==> (i
                    < self@.pieces.len() && self@.pieces[i] == PieceStatus::Finished)),
    {
        Ok(Bitfield::from(&self.pieces_status))
    }
}

} // verus!
