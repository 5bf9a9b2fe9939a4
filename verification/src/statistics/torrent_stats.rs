use crate::text::push_text;
use crate::torrent_handler::piece_status::PieceStatus;
use crate::torrent_handler::status::{count_of, AtomicTorrentStatus};
use vstd::prelude::*;

verus! {

/// How one side of a session stands, in words: whether it is choked, a
/// slash, and whether it is interested.
pub open spec fn state_text(choked: bool, interested: bool) -> Seq<char> {
    (if choked {
        "choked"@
    } else {
        "unchoked"@
    }) + "/"@ + (if interested {
        "interested"@
    } else {
        "not interested"@
    })
}

/// Writes how one side of a session stands.
pub fn format_state(choked: bool, interested: bool) -> (text: String)
    ensures
        text@ == state_text(choked, interested),
{
    let mut text = String::new();
    if choked {
        push_text(&mut text, "choked");
    } else {
        push_text(&mut text, "unchoked");
    }
    push_text(&mut text, "/");
    if interested {
        push_text(&mut text, "interested");
    } else {
        push_text(&mut text, "not interested");
    }
    assert(text@ =~= state_text(choked, interested));
    text
}

/// The numbers of one torrent's download at one moment.
#[derive(Debug, PartialEq, Eq, Clone)]
pub struct Statistics {
    pub torrent_name: String,
    pub info_hash: String,
    /// Number of bytes of the file.
    pub length: u64,
    /// Number of pieces of the torrent.
    pub pieces_amount: u32,
    /// Number of sessions that are connected.
    pub peers_amount: usize,
    /// Number of pieces that are finished.
    pub downloaded_pieces_amount: usize,
}

impl Statistics {
    /// Takes the numbers of a download from its status.
    pub fn for_torrent(torrent_status: &AtomicTorrentStatus) -> (statistics: Self)
        requires
            torrent_status.wf(),
        ensures
            statistics.torrent_name@ == torrent_status.torrent().info.name@,
            statistics.info_hash@ == torrent_status.torrent().info_hash@,
            statistics.length == torrent_status.torrent().info.length,
            statistics.pieces_amount == torrent_status@.pieces.len(),
            statistics.pieces_amount == torrent_status.torrent().pieces_count(),
            statistics.peers_amount == torrent_status@.peers,
            statistics.downloaded_pieces_amount == count_of(
                torrent_status@.pieces,
                PieceStatus::Finished,
            ),
            statistics.downloaded_pieces_amount <= statistics.pieces_amount,
    {
        proof {
            torrent_status.lemma_pieces_len();
            crate::torrent_handler::status::lemma_count_zero(
                torrent_status@.pieces,
                PieceStatus::Finished,
            );
        }
        let torrent = torrent_status.torrent_ref();
        Self {
            torrent_name: torrent.name(),
            info_hash: torrent.info_hash(),
            length: torrent.length(),
            pieces_amount: torrent_status.total_pieces(),
            peers_amount: torrent_status.current_peers(),
            downloaded_pieces_amount: torrent_status.downloaded_pieces(),
        }
    }

    /// Name of the file that is downloaded.
    pub fn torrent_name(&self) -> (name: &str)
        ensures
            name@ == self.torrent_name@,
    {
        self.torrent_name.as_str()
    }
}

} // verus!
