//! The decisions of a session with one peer.
//!
//! A session neither reads nor writes a socket. It is told what arrived and
//! answers with the bytes to send and with what it needs next: another
//! frame, a piece to download, the outcome of a commit, or a block to serve.
//! The program that owns the socket and the torrent's status does as told.

use crate::config::cfg::Cfg;
use crate::digest::{from_hex, is_hex, same_bytes};
use crate::peer::bitfield::Bitfield;
use crate::peer::bt_peer::BtPeer;
use crate::peer::handshake::{decoded_handshake, encoded_handshake, standard, Handshake};
use crate::peer::message::{
    block_bytes, encoded, FromMessageError, Message, MessageId, MessageView, Request, BLOCK_SIZE,
};
use crate::peer::session_status::SessionStatus;
use crate::peer::wire::{copy_range, push_all, push_be32};
use crate::torrent_handler::status::AtomicTorrentStatusError;
use crate::torrent_parser::torrent::Torrent;
use vstd::prelude::*;

verus! {

/// Why a session ends.
#[derive(Debug, PartialEq, Eq, Clone, Copy, Structural)]
pub enum PeerSessionError {
    /// The handshake was not received, not valid, or for another torrent.
    HandshakeError,
    /// A message of this kind could not be sent, or its payload is malformed.
    MessageError(MessageId),
    /// The socket failed or timed out while a message was read.
    ErrorReadingMessage,
    /// The bytes that arrived are no message of the protocol.
    MessageDoesNotExist(FromMessageError),
    /// No connection to the peer could be opened.
    CouldNotConnectToPeer,
    /// The status refused to count the session as gone.
    ErrorDisconnectingFromPeer(AtomicTorrentStatusError),
    /// The status refused to set the piece free again.
    ErrorAbortingPiece(AtomicTorrentStatusError),
    /// The status could not select a piece.
    ErrorSelectingPiece(AtomicTorrentStatusError),
    /// The status refused the downloaded piece for another reason than its
    /// digest.
    ErrorNotifyingPieceDownloaded(AtomicTorrentStatusError),
    /// The block that the peer asked for could not be had.
    ErrorGettingPiece(AtomicTorrentStatusError),
    /// The peer offers no piece that is still wanted: the session is done.
    NoPiecesLeftToDownloadInThisPeer,
    /// The peer said that it is not interested before it asked for anything.
    PeerNotInterested,
    /// The status could not give the bitfield.
    ErrorGettingBitfield(AtomicTorrentStatusError),
    /// The length prefix of a message announces more than is ever read.
    OversizePayload,
    /// Something arrived that the session does not expect where it stands.
    UnexpectedMessage,
    /// The settings allow no request in flight, so nothing could ever be
    /// asked of the peer.
    InvalidPipeliningSize,
}

/// Where a session stands.
#[derive(Debug, PartialEq, Eq, Clone, Copy, Structural)]
pub enum Phase {
    /// Nothing was exchanged yet.
    Start,
    /// We connected and sent our handshake; the peer's is awaited.
    HandshakeSent,
    /// We connected, the handshakes are done, no piece is in progress.
    Ready,
    /// We connected and a piece is in progress.
    Downloading,
    /// The peer connected and has our handshake and bitfield; it has not
    /// said that it is interested.
    AwaitingInterest,
    /// The peer connected and was unchoked.
    Serving,
}

/// How far the download of the current piece has come.
#[derive(Debug, PartialEq, Eq, Clone, Copy, Structural)]
pub struct Progress {
    /// Index of the piece.
    pub index: u32,
    /// Number of whole blocks of the piece.
    pub blocks: u32,
    /// Number of bytes of the short block after them, zero where there is
    /// none.
    pub tail: u32,
    /// Number of whole blocks that were requested.
    pub requested: u32,
    /// The short block was requested.
    pub tail_requested: bool,
    /// Number of requested blocks that have not arrived.
    pub awaited: u32,
}

/// What a session needs after a step.
#[derive(Debug, PartialEq, Eq, Clone, Copy, Structural)]
pub enum Next {
    /// The next frame from the peer.
    Read,
    /// A piece selected by the torrent's status for the peer's bitfield.
    Select,
    /// The outcome of handing the buffered piece to the torrent's status.
    Commit { index: u32 },
    /// The outcome of setting the piece free again.
    Abort { index: u32 },
    /// The `length` bytes at `offset` of the file, which are the block at
    /// `begin` of piece `index`.
    Serve { index: u32, begin: u32, offset: u64, length: u32 },
}

/// The answer of a session to what it was told.
#[derive(Debug, PartialEq, Eq, Clone)]
pub struct Step {
    /// The bytes to send to the peer, possibly none.
    pub send: Vec<u8>,
    /// What the session needs next.
    pub next: Next,
}

/// What a session is set up with and never changes.
pub struct SessionSetup {
    /// The peer at the other end.
    pub peer: BtPeer,
    pub piece_length: u32,
    pub total_pieces: u32,
    pub last_piece_size: u32,
    pub pipelining: u32,
    pub info_hash: Seq<u8>,
    pub peer_id: Seq<u8>,
}

/// What changes in the course of a session.
pub struct SessionState {
    pub phase: Phase,
    pub status: SessionStatus,
    /// The bitfield that the peer sent, empty before it did.
    pub remote: Seq<u8>,
    /// The blocks of the current piece that arrived, in arrival order.
    pub buffer: Seq<u8>,
    pub progress: Progress,
    /// The piece that was handed in last, if its digest was wrong.
    pub failed: Option<u32>,
    /// The same piece had the wrong digest twice running: the peer has
    /// nothing better to give.
    pub stalled: bool,
}

/// A step as contracts see it.
pub struct Outcome {
    pub state: SessionState,
    pub send: Seq<u8>,
    pub next: Next,
}

/// Number of whole blocks that are requested for a piece: for the last
/// piece, where its size is no multiple of the block size, as many as fit in
/// it; for every other piece, as many as fit in the piece length.
pub open spec fn blocks_in_piece(setup: SessionSetup, index: u32) -> int {
    if setup.total_pieces > 0 && index == setup.total_pieces - 1 && setup.last_piece_size
        % BLOCK_SIZE != 0 {
        (setup.last_piece_size / BLOCK_SIZE) as int
    } else {
        (setup.piece_length / BLOCK_SIZE) as int
    }
}

/// Number of bytes of the short block that ends the last piece, zero for
/// every other piece and where the last piece ends on a block.
pub open spec fn tail_of_piece(setup: SessionSetup, index: u32) -> int {
    if setup.total_pieces > 0 && index == setup.total_pieces - 1 {
        (setup.last_piece_size % BLOCK_SIZE) as int
    } else {
        0
    }
}

/// The whole blocks and the short block of a last piece whose size is no
/// multiple of the block size make up the piece, byte for byte.
pub proof fn lemma_last_piece_is_covered(setup: SessionSetup)
    requires
        setup.total_pieces > 0,
        setup.last_piece_size % BLOCK_SIZE != 0,
    ensures
        blocks_in_piece(setup, (setup.total_pieces - 1) as u32) * BLOCK_SIZE + tail_of_piece(
            setup,
            (setup.total_pieces - 1) as u32,
        ) == setup.last_piece_size,
        0 < tail_of_piece(setup, (setup.total_pieces - 1) as u32) < BLOCK_SIZE,
{
}

/// The whole blocks of a piece that is not the last make up the piece,
/// where the piece length is a multiple of the block size.
pub proof fn lemma_piece_is_covered(setup: SessionSetup, index: u32)
    requires
        index + 1 != setup.total_pieces,
        setup.piece_length % BLOCK_SIZE == 0,
    ensures
        blocks_in_piece(setup, index) * BLOCK_SIZE == setup.piece_length,
        tail_of_piece(setup, index) == 0,
{
}

/// Number of blocks of the next window: the pipelining width, or what is
/// left of the piece where that is less.
pub open spec fn window_size(left: int, pipelining: int) -> int {
    if left < pipelining {
        left
    } else {
        pipelining
    }
}

/// The bytes of one request message.
pub open spec fn request_message(index: u32, begin: u32, length: u32) -> Seq<u8> {
    encoded(MessageView { id: MessageId::Request, payload: (Request { index, begin, length }).bytes() })
}

/// The request messages for `count` whole blocks of a piece from block
/// `first` on, in increasing order of offset.
pub open spec fn window_requests(index: u32, first: int, count: int) -> Seq<u8>
    decreases count,
{
    if count <= 0 {
        Seq::empty()
    } else {
        window_requests(index, first, count - 1) + request_message(
            index,
            ((first + count - 1) * BLOCK_SIZE) as u32,
            BLOCK_SIZE,
        )
    }
}

/// A message without payload, as sent.
pub open spec fn bare_message(id: MessageId) -> Seq<u8> {
    encoded(MessageView { id, payload: Seq::empty() })
}

/// The plan for a piece that was just selected: nothing requested yet.
pub open spec fn plan(setup: SessionSetup, index: u32) -> Progress {
    Progress {
        index,
        blocks: blocks_in_piece(setup, index) as u32,
        tail: tail_of_piece(setup, index) as u32,
        requested: 0,
        tail_requested: false,
        awaited: 0,
    }
}

/// Every block of the piece in progress was requested and has arrived.
pub open spec fn piece_complete(state: SessionState) -> bool {
    &&& state.phase == Phase::Downloading
    &&& state.progress.awaited == 0
    &&& state.progress.requested == state.progress.blocks
    &&& (state.progress.tail == 0 || state.progress.tail_requested)
}

/// What happens once nothing is awaited while a piece is in progress: the
/// next window of whole blocks is requested; after the last of them the short
/// block, if the piece has one; after that the piece is handed in.
pub open spec fn next_window(setup: SessionSetup, state: SessionState) -> Outcome {
    let progress = state.progress;
    if progress.requested < progress.blocks {
        let count = window_size(progress.blocks - progress.requested, setup.pipelining as int);
        Outcome {
            state: SessionState {
                progress: Progress {
                    requested: (progress.requested + count) as u32,
                    awaited: count as u32,
                    ..progress
                },
                ..state
            },
            send: window_requests(progress.index, progress.requested as int, count),
            next: Next::Read,
        }
    } else if progress.tail > 0 && !progress.tail_requested {
        Outcome {
            state: SessionState {
                progress: Progress { tail_requested: true, awaited: 1, ..progress },
                ..state
            },
            send: request_message(
                progress.index,
                (progress.blocks * BLOCK_SIZE) as u32,
                progress.tail,
            ),
            next: Next::Read,
        }
    } else {
        Outcome { state, send: Seq::empty(), next: Next::Commit { index: progress.index } }
    }
}

/// What follows a message that was handled. A session that connected and
/// has no piece in progress says that it is interested while it is choked
/// and has not said so, and asks for a piece once it is unchoked and
/// interested. In every other case the next frame is read.
pub open spec fn follow_up(state: SessionState) -> Outcome {
    if state.phase == Phase::Ready && state.status.choked && !state.status.interested {
        Outcome {
            state: SessionState {
                status: SessionStatus { interested: true, ..state.status },
                ..state
            },
            send: bare_message(MessageId::Interested),
            next: Next::Read,
        }
    } else if state.phase == Phase::Ready && !state.status.choked && state.status.interested {
        Outcome { state, send: Seq::empty(), next: Next::Select }
    } else {
        Outcome { state, send: Seq::empty(), next: Next::Read }
    }
}

/// The handshakes are done.
pub open spec fn talking(phase: Phase) -> bool {
    phase != Phase::Start && phase != Phase::HandshakeSent
}

/// What a frame does to a session whose handshakes are done.
///
/// A keep-alive and the kinds that are not acted on (choke, have, cancel,
/// port) change nothing. Unchoke clears `choked`; a bitfield replaces the
/// peer's. Interested is recorded, and answered with an unchoke by a session
/// that waited for it; not interested is recorded, and ends a session that
/// waited for interest. A request asks for the block to be read at `index *
/// piece_length + begin` of the file. A piece message is appended to the
/// buffer while blocks are awaited, and once the last awaited block is in,
/// the next window follows.
pub open spec fn on_frame(setup: SessionSetup, state: SessionState, frame: Option<MessageView>) -> Result<
    Outcome,
    PeerSessionError,
> {
    if !talking(state.phase) {
        Err(PeerSessionError::UnexpectedMessage)
    } else {
        match frame {
            None => Ok(follow_up(state)),
            Some(message) => match message.id {
                MessageId::Unchoke => Ok(
                    follow_up(
                        SessionState {
                            status: SessionStatus { choked: false, ..state.status },
                            ..state
                        },
                    ),
                ),
                MessageId::Bitfield => Ok(
                    follow_up(SessionState { remote: message.payload, ..state }),
                ),
                MessageId::Interested => if state.phase == Phase::AwaitingInterest {
                    Ok(
                        Outcome {
                            state: SessionState {
                                phase: Phase::Serving,
                                status: SessionStatus {
                                    peer_interested: true,
                                    peer_choked: false,
                                    ..state.status
                                },
                                ..state
                            },
                            send: bare_message(MessageId::Unchoke),
                            next: Next::Read,
                        },
                    )
                } else {
                    Ok(
                        follow_up(
                            SessionState {
                                status: SessionStatus { peer_interested: true, ..state.status },
                                ..state
                            },
                        ),
                    )
                },
                MessageId::NotInterested => if state.phase == Phase::AwaitingInterest {
                    Err(PeerSessionError::PeerNotInterested)
                } else {
                    Ok(
                        follow_up(
                            SessionState {
                                status: SessionStatus { peer_interested: false, ..state.status },
                                ..state
                            },
                        ),
                    )
                },
                MessageId::Request => match Request::parsed(message.payload) {
                    Some(request) => Ok(
                        Outcome {
                            state,
                            send: Seq::empty(),
                            next: Next::Serve {
                                index: request.index,
                                begin: request.begin,
                                offset: (request.index * setup.piece_length
                                    + request.begin) as u64,
                                length: request.length,
                            },
                        },
                    ),
                    None => Err(PeerSessionError::MessageError(MessageId::Request)),
                },
                MessageId::Piece => if message.payload.len() < 8 {
                    Err(PeerSessionError::MessageError(MessageId::Piece))
                } else if state.phase == Phase::Downloading && state.progress.awaited > 0 {
                    let arrived = SessionState {
                        buffer: state.buffer + message.payload.subrange(
                            8,
                            message.payload.len() as int,
                        ),
                        progress: Progress {
                            awaited: (state.progress.awaited - 1) as u32,
                            ..state.progress
                        },
                        ..state
                    };
                    if arrived.progress.awaited == 0 {
                        Ok(next_window(setup, arrived))
                    } else {
                        Ok(Outcome { state: arrived, send: Seq::empty(), next: Next::Read })
                    }
                } else {
                    Ok(follow_up(state))
                },
                _ => Ok(follow_up(state)),
            },
        }
    }
}

/// What the selection of a piece does to a session that asked for one.
/// Without a piece the session is done. With one, the piece is planned, the
/// buffer emptied, and the first window requested.
pub open spec fn on_selected(setup: SessionSetup, state: SessionState, picked: Option<u32>) -> Result<
    Outcome,
    PeerSessionError,
> {
    if !(state.phase == Phase::Ready && !state.status.choked && state.status.interested) {
        Err(PeerSessionError::UnexpectedMessage)
    } else {
        match picked {
            None => Err(PeerSessionError::NoPiecesLeftToDownloadInThisPeer),
            Some(index) => Ok(
                next_window(
                    setup,
                    SessionState {
                        phase: Phase::Downloading,
                        buffer: Seq::empty(),
                        progress: plan(setup, index),
                        ..state
                    },
                ),
            ),
        }
    }
}

/// What the outcome of a commit does to a session whose piece is complete.
/// A piece that was accepted is done, and the next one is asked for. A piece
/// with the wrong digest is to be set free again; the session remembers it,
/// and stalls if it is the piece that failed just before. Any other refusal
/// ends the session with the piece still in progress.
pub open spec fn on_committed(
    state: SessionState,
    outcome: Result<(), AtomicTorrentStatusError>,
) -> Result<Outcome, PeerSessionError> {
    if !piece_complete(state) {
        Err(PeerSessionError::UnexpectedMessage)
    } else {
        let idle = SessionState { phase: Phase::Ready, buffer: Seq::empty(), ..state };
        match outcome {
            Ok(_) => Ok(
                Outcome {
                    state: SessionState { failed: None, ..idle },
                    send: Seq::empty(),
                    next: Next::Select,
                },
            ),
            Err(AtomicTorrentStatusError::HashMismatch) => Ok(
                Outcome {
                    state: SessionState {
                        failed: Some(state.progress.index),
                        stalled: state.failed == Some(state.progress.index),
                        ..idle
                    },
                    send: Seq::empty(),
                    next: Next::Abort { index: state.progress.index },
                },
            ),
            Err(error) => Err(PeerSessionError::ErrorNotifyingPieceDownloaded(error)),
        }
    }
}

/// What the outcome of setting a piece free does to a session: the next
/// piece is asked for, unless the session has stalled, which ends it as one
/// whose peer has no piece left to give; a refusal ends it with the refusal.
pub open spec fn on_aborted(
    state: SessionState,
    outcome: Result<(), AtomicTorrentStatusError>,
) -> Result<Outcome, PeerSessionError> {
    if state.phase != Phase::Ready {
        Err(PeerSessionError::UnexpectedMessage)
    } else {
        match outcome {
            Ok(_) => if state.stalled {
                Err(PeerSessionError::NoPiecesLeftToDownloadInThisPeer)
            } else {
                Ok(Outcome { state, send: Seq::empty(), next: Next::Select })
            },
            Err(error) => Err(PeerSessionError::ErrorAbortingPiece(error)),
        }
    }
}

/// The piece message that answers a request with the block that was read,
/// followed by what follows any handled message.
pub open spec fn on_block(state: SessionState, index: u32, begin: u32, block: Seq<u8>) -> Result<
    Outcome,
    PeerSessionError,
> {
    if !talking(state.phase) {
        Err(PeerSessionError::UnexpectedMessage)
    } else if block.len() + 9 > u32::MAX {
        Err(PeerSessionError::MessageError(MessageId::Piece))
    } else {
        let after = follow_up(state);
        Ok(
            Outcome {
                send: encoded(
                    MessageView { id: MessageId::Piece, payload: block_bytes(index, begin, block) },
                ) + after.send,
                ..after
            },
        )
    }
}

/// A session with one peer for one torrent.
pub struct PeerSession {
    torrent: Torrent,
    peer: BtPeer,
    config: Cfg,
    info_hash: Vec<u8>,
    client_peer_id: Vec<u8>,
    piece_length: u32,
    total_pieces: u32,
    last_piece_size: u32,
    pipelining: u32,
    bitfield: Bitfield,
    status: SessionStatus,
    piece: Vec<u8>,
    phase: Phase,
    progress: Progress,
    failed: Option<u32>,
    stalled: bool,
}

impl View for PeerSession {
    type V = SessionState;

    closed spec fn view(&self) -> SessionState {
        SessionState {
            phase: self.phase,
            status: self.status,
            remote: self.bitfield.bitfield@,
            buffer: self.piece@,
            progress: self.progress,
            failed: self.failed,
            stalled: self.stalled,
        }
    }
}

/// The request messages for `count` whole blocks from block `first` on.
fn requests_for(index: u32, first: u32, count: u32) -> (bytes: Vec<u8>)
    requires
        (first + count) * BLOCK_SIZE <= u32::MAX,
    ensures
        bytes@ == window_requests(index, first as int, count as int),
{
    let mut bytes: Vec<u8> = Vec::new();
    let mut done: u32 = 0;
    while done < count
        invariant
            done <= count,
            (first + count) * BLOCK_SIZE <= u32::MAX,
            bytes@ == window_requests(index, first as int, done as int),
        decreases count - done,
    {
        assert((first + done) * BLOCK_SIZE <= (first + count) * BLOCK_SIZE) by (nonlinear_arith)
            requires
                done <= count,
        ;
        let begin: u32 = (first + done) * BLOCK_SIZE;
        let payload = Request::new(index, begin, BLOCK_SIZE).to_bytes();
        let message = Message::new(MessageId::Request, payload);
        let more = message.to_bytes();
        push_all(&mut bytes, more.as_slice());
        done += 1;
    }
    bytes
}

/// The bytes of a message without payload.
fn bare(id: MessageId) -> (bytes: Vec<u8>)
    ensures
        bytes@ == bare_message(id),
{
    Message::new(id, Vec::new()).to_bytes()
}

impl PeerSession {
    /// What the session was set up with.
    pub closed spec fn setup(&self) -> SessionSetup {
        SessionSetup {
            peer: self.peer,
            piece_length: self.piece_length,
            total_pieces: self.total_pieces,
            last_piece_size: self.last_piece_size,
            pipelining: self.pipelining,
            info_hash: self.info_hash@,
            peer_id: self.client_peer_id@,
        }
    }

    /// The pipelining width is positive, and every block of the piece in
    /// progress starts at an offset that the protocol can name.
    pub closed spec fn wf(&self) -> bool {
        &&& self.pipelining > 0
        &&& self.progress.requested <= self.progress.blocks
        &&& self.progress.blocks * BLOCK_SIZE <= u32::MAX
        &&& self.progress.awaited <= self.progress.blocks + 1
        &&& self.progress.tail < BLOCK_SIZE
        &&& self.progress.blocks * BLOCK_SIZE + self.progress.tail <= u32::MAX
    }

    /// A session for a peer and a torrent, before anything is exchanged.
    /// The settings have to allow at least one request in flight
    /// (`InvalidPipeliningSize`), and the info hash of the torrent has to be
    /// hexadecimal digits, or the session cannot shake hands
    /// (`HandshakeError`).
    pub fn new(peer: BtPeer, torrent: Torrent, config: Cfg, client_peer_id: Vec<u8>) -> (result:
        Result<PeerSession, PeerSessionError>)
        requires
            torrent.valid(),
        ensures
            match result {
                Ok(session) => {
                    &&& config.pipelining_size > 0
                    &&& is_hex(torrent.info_hash_text())
                    &&& session.wf()
                    &&& session.setup() == (SessionSetup {
                        peer,
                        piece_length: torrent.info.piece_length as u32,
                        total_pieces: torrent.pieces_count() as u32,
                        last_piece_size: torrent.last_piece_len() as u32,
                        pipelining: config.pipelining_size,
                        info_hash: from_hex(torrent.info_hash_text()),
                        peer_id: client_peer_id@,
                    })
                    &&& session@.phase == Phase::Start
                    &&& session@.status == (SessionStatus {
                        choked: true,
                        interested: false,
                        peer_choked: true,
                        peer_interested: false,
                    })
                    &&& session@.remote == Seq::<u8>::empty()
                    &&& session@.buffer == Seq::<u8>::empty()
                    &&& session@.failed is None
                    &&& !session@.stalled
                },
                Err(error) => if config.pipelining_size == 0 {
                    error == PeerSessionError::InvalidPipeliningSize
                } else {
                    error == PeerSessionError::HandshakeError && !is_hex(
                        torrent.info_hash_text(),
                    )
                },
            },
    {
        if config.pipelining_size == 0 {
            return Err(PeerSessionError::InvalidPipeliningSize);
        }
        let info_hash = match torrent.get_info_hash_as_bytes() {
            Ok(bytes) => bytes,
            Err(_) => { return Err(PeerSessionError::HandshakeError); },
        };
        let piece_length = torrent.piece_length();
        let total_pieces = torrent.total_pieces();
        let last_piece_size = torrent.last_piece_size();
        let pipelining = config.pipelining_size;
        Ok(
            PeerSession {
                torrent,
                peer,
                config,
                info_hash,
                client_peer_id,
                piece_length,
                total_pieces,
                last_piece_size,
                pipelining,
                bitfield: Bitfield::new(Vec::new()),
                status: SessionStatus::new(),
                piece: Vec::new(),
                phase: Phase::Start,
                progress: Progress {
                    index: 0,
                    blocks: 0,
                    tail: 0,
                    requested: 0,
                    tail_requested: false,
                    awaited: 0,
                },
                failed: None,
                stalled: false,
            },
        )
    }

    /// The bitfield that the peer sent, empty before it did.
    pub fn bitfield(&self) -> (bitfield: &Bitfield)
        ensures
            bitfield.bitfield@ == self@.remote,
    {
        &self.bitfield
    }

    /// The flags of the session.
    pub fn status(&self) -> (status: SessionStatus)
        ensures
            status == self@.status,
    {
        self.status
    }

    /// Where the session stands.
    pub fn phase(&self) -> (phase: Phase)
        ensures
            phase == self@.phase,
    {
        self.phase
    }

    /// The peer at the other end of the session, as it was given when the
    /// session was made.
    pub fn peer(&self) -> (peer: &BtPeer)
        ensures
            *peer == self.setup().peer,
    {
        &self.peer
    }

    /// The piece that the torrent's status counts as downloading on behalf
    /// of this session, which is to be set free if the session ends now.
    pub fn piece_in_flight(&self) -> (index: Option<u32>)
        ensures
            index == (if self@.phase == Phase::Downloading {
                Some(self@.progress.index)
            } else {
                None
            }),
    {
        match self.phase {
            Phase::Downloading => Some(self.progress.index),
            _ => None,
        }
    }

    /// Hands out the buffered bytes of the piece and leaves the buffer
    /// empty.
    pub fn take_piece(&mut self) -> (piece: Vec<u8>)
        requires
            old(self).wf(),
        ensures
            final(self).wf(),
            final(self).setup() == old(self).setup(),
            piece@ == old(self)@.buffer,
            final(self)@ == (SessionState { buffer: Seq::empty(), ..old(self)@ }),
    {
        let mut piece: Vec<u8> = Vec::new();
        std::mem::swap(&mut piece, &mut self.piece);
        piece
    }

    /// Number of whole blocks that are requested for a piece.
    pub fn complete_blocks_in_torrent_piece(&self, piece_index: u32) -> (blocks: u32)
        ensures
            blocks == blocks_in_piece(self.setup(), piece_index),
            blocks * BLOCK_SIZE <= u32::MAX,
    {
        let blocks: u32 = if self.total_pieces > 0 && piece_index == self.total_pieces - 1
            && self.last_piece_size % BLOCK_SIZE != 0 {
            self.last_piece_size / BLOCK_SIZE
        } else {
            self.piece_length / BLOCK_SIZE
        };
        blocks
    }

    /// Number of bytes of the short block that ends a piece, zero where it
    /// has none.
    pub fn last_block_size(&self, piece_index: u32) -> (tail: u32)
        ensures
            tail == tail_of_piece(self.setup(), piece_index),
            tail < BLOCK_SIZE,
    {
        if self.total_pieces > 0 && piece_index == self.total_pieces - 1 {
            self.last_piece_size % BLOCK_SIZE
        } else {
            0
        }
    }

    /// The first step of a session that we opened: our handshake is sent
    /// and the peer's awaited.
    pub fn start_outgoing_seeder(&mut self) -> (result: Result<Step, PeerSessionError>)
        requires
            old(self).wf(),
        ensures
            final(self).wf(),
            final(self).setup() == old(self).setup(),
            old(self)@.phase != Phase::Start ==> result == Err::<Step, PeerSessionError>(
                PeerSessionError::UnexpectedMessage,
            ) && final(self)@ == old(self)@,
            old(self)@.phase == Phase::Start ==> {
                &&& result matches Ok(step)
                &&& step.send@ == encoded_handshake(
                    standard(old(self).setup().info_hash, old(self).setup().peer_id),
                )
                &&& step.next == Next::Read
                &&& final(self)@ == (SessionState { phase: Phase::HandshakeSent, ..old(self)@ })
            },
    {
        match self.phase {
            Phase::Start => {},
            _ => { return Err(PeerSessionError::UnexpectedMessage); },
        }
        let send = self.handshake_bytes();
        self.phase = Phase::HandshakeSent;
        Ok(Step { send, next: Next::Read })
    }

    /// The bytes of our handshake.
    fn handshake_bytes(&self) -> (bytes: Vec<u8>)
        ensures
            bytes@ == encoded_handshake(standard(self.setup().info_hash, self.setup().peer_id)),
    {
        let handshake = Handshake::new(self.info_hash.clone(), self.client_peer_id.clone());
        handshake.to_bytes()
    }

    /// Takes the peer's handshake in a session that we opened. It has to be
    /// a handshake of this protocol for the info hash of our torrent; the
    /// session is then ready and reads on.
    pub fn receive_handshake(&mut self, bytes: &[u8]) -> (result: Result<Step, PeerSessionError>)
        requires
            old(self).wf(),
        ensures
            final(self).wf(),
            final(self).setup() == old(self).setup(),
            old(self)@.phase != Phase::HandshakeSent ==> result == Err::<Step, PeerSessionError>(
                PeerSessionError::UnexpectedMessage,
            ) && final(self)@ == old(self)@,
            old(self)@.phase == Phase::HandshakeSent ==> match decoded_handshake(bytes@) {
                Some(handshake) => if handshake.info_hash == old(self).setup().info_hash {
                    &&& result matches Ok(step)
                    &&& step.send@ == Seq::<u8>::empty()
                    &&& step.next == Next::Read
                    &&& final(self)@ == (SessionState { phase: Phase::Ready, ..old(self)@ })
                } else {
                    result == Err::<Step, PeerSessionError>(PeerSessionError::HandshakeError)
                        && final(self)@ == old(self)@
                },
                None => result == Err::<Step, PeerSessionError>(PeerSessionError::HandshakeError)
                    && final(self)@ == old(self)@,
            },
    {
        match self.phase {
            Phase::HandshakeSent => {},
            _ => { return Err(PeerSessionError::UnexpectedMessage); },
        }
        let handshake = match Handshake::from_bytes(bytes) {
            Ok(handshake) => handshake,
            Err(_) => { return Err(PeerSessionError::HandshakeError); },
        };
        if !same_bytes(handshake.info_hash.as_slice(), self.info_hash.as_slice()) {
            return Err(PeerSessionError::HandshakeError);
        }
        self.phase = Phase::Ready;
        Ok(Step { send: Vec::new(), next: Next::Read })
    }

    /// Takes the handshake of a peer that connected to us, and answers with
    /// our handshake followed by the bitfield of what we hold. The peer's
    /// handshake has to be one of this protocol for the info hash of our
    /// torrent.
    pub fn handshake_incoming_leecher(&mut self, bytes: &[u8], held: &Bitfield) -> (result: Result<
        Step,
        PeerSessionError,
    >)
        requires
            old(self).wf(),
        ensures
            final(self).wf(),
            final(self).setup() == old(self).setup(),
            old(self)@.phase != Phase::Start ==> result == Err::<Step, PeerSessionError>(
                PeerSessionError::UnexpectedMessage,
            ) && final(self)@ == old(self)@,
            old(self)@.phase == Phase::Start ==> match decoded_handshake(bytes@) {
                Some(handshake) => if handshake.info_hash != old(self).setup().info_hash {
                    result == Err::<Step, PeerSessionError>(PeerSessionError::HandshakeError)
                        && final(self)@ == old(self)@
                } else if held.bitfield@.len() + 1 >= u32::MAX {
                    result == Err::<Step, PeerSessionError>(
                        PeerSessionError::MessageError(MessageId::Bitfield),
                    ) && final(self)@ == old(self)@
                } else {
                    &&& result matches Ok(step)
                    &&& step.send@ == encoded_handshake(
                        standard(old(self).setup().info_hash, old(self).setup().peer_id),
                    ) + encoded(MessageView { id: MessageId::Bitfield, payload: held.bitfield@ })
                    &&& step.next == Next::Read
                    &&& final(self)@ == (SessionState {
                        phase: Phase::AwaitingInterest,
                        ..old(self)@
                    })
                },
                None => result == Err::<Step, PeerSessionError>(PeerSessionError::HandshakeError)
                    && final(self)@ == old(self)@,
            },
    {
        match self.phase {
            Phase::Start => {},
            _ => { return Err(PeerSessionError::UnexpectedMessage); },
        }
        let handshake = match Handshake::from_bytes(bytes) {
            Ok(handshake) => handshake,
            Err(_) => { return Err(PeerSessionError::HandshakeError); },
        };
        if !same_bytes(handshake.info_hash.as_slice(), self.info_hash.as_slice()) {
            return Err(PeerSessionError::HandshakeError);
        }
        if held.bitfield.len() >= 0xFFFF_FFFE {
            return Err(PeerSessionError::MessageError(MessageId::Bitfield));
        }
        let mut send = self.handshake_bytes();
        let payload = copy_range(held.bitfield.as_slice(), 0, held.bitfield.len());
        assert(payload@ =~= held.bitfield@);
        let message = Message::new(MessageId::Bitfield, payload);
        let more = message.to_bytes();
        push_all(&mut send, more.as_slice());
        self.phase = Phase::AwaitingInterest;
        Ok(Step { send, next: Next::Read })
    }

    /// What follows a handled message, as `follow_up` says.
    fn follow(&mut self) -> (step: Step)
        requires
            old(self).wf(),
        ensures
            final(self).wf(),
            final(self).setup() == old(self).setup(),
            final(self)@ == follow_up(old(self)@).state,
            step.send@ == follow_up(old(self)@).send,
            step.next == follow_up(old(self)@).next,
    {
        let ready: bool = match self.phase {
            Phase::Ready => true,
            _ => false,
        };
        if ready && self.status.choked && !self.status.interested {
            self.status.interested = true;
            Step { send: bare(MessageId::Interested), next: Next::Read }
        } else if ready && !self.status.choked && self.status.interested {
            Step { send: Vec::new(), next: Next::Select }
        } else {
            Step { send: Vec::new(), next: Next::Read }
        }
    }

    /// Requests what comes next of the piece in progress, as `next_window`
    /// says.
    fn advance(&mut self) -> (step: Step)
        requires
            old(self).wf(),
        ensures
            final(self).wf(),
            final(self).setup() == old(self).setup(),
            final(self)@ == next_window(old(self).setup(), old(self)@).state,
            step.send@ == next_window(old(self).setup(), old(self)@).send,
            step.next == next_window(old(self).setup(), old(self)@).next,
    {
        let progress = self.progress;
        if progress.requested < progress.blocks {
            let left: u32 = progress.blocks - progress.requested;
            let count: u32 = if left < self.pipelining {
                left
            } else {
                self.pipelining
            };
            assert((progress.requested + count) * BLOCK_SIZE <= progress.blocks * BLOCK_SIZE)
                by (nonlinear_arith)
                requires
                    progress.requested + count <= progress.blocks,
            ;
            let send = requests_for(progress.index, progress.requested, count);
            self.progress.requested = progress.requested + count;
            self.progress.awaited = count;
            Step { send, next: Next::Read }
        } else if progress.tail > 0 && !progress.tail_requested {
            let begin: u32 = progress.blocks * BLOCK_SIZE;
            let payload = Request::new(progress.index, begin, progress.tail).to_bytes();
            let send = Message::new(MessageId::Request, payload).to_bytes();
            self.progress.tail_requested = true;
            self.progress.awaited = 1;
            Step { send, next: Next::Read }
        } else {
            Step { send: Vec::new(), next: Next::Commit { index: progress.index } }
        }
    }

    /// Takes a frame from the peer: a message, or nothing for a keep-alive.
    /// The session changes and answers as `on_frame` says; where that is an
    /// error, the session is left as it was.
    pub fn handle_message(&mut self, frame: Option<Message>) -> (result: Result<
        Step,
        PeerSessionError,
    >)
        requires
            old(self).wf(),
        ensures
            final(self).wf(),
            final(self).setup() == old(self).setup(),
            match on_frame(
                old(self).setup(),
                old(self)@,
                match frame {
                    Some(message) => Some(message@),
                    None => None,
                },
            ) {
                Ok(outcome) => {
                    &&& result matches Ok(step)
                    &&& step.send@ == outcome.send
                    &&& step.next == outcome.next
                    &&& final(self)@ == outcome.state
                },
                Err(error) => result == Err::<Step, PeerSessionError>(error) && final(self)@
                    == old(self)@,
            },
    {
        match self.phase {
            Phase::Start => { return Err(PeerSessionError::UnexpectedMessage); },
            Phase::HandshakeSent => { return Err(PeerSessionError::UnexpectedMessage); },
            _ => {},
        }
        let message = match frame {
            Some(message) => message,
            None => { return Ok(self.follow()); },
        };
        let waiting: bool = match self.phase {
            Phase::AwaitingInterest => true,
            _ => false,
        };
        match message.id {
            MessageId::Unchoke => {
                self.status.choked = false;
                Ok(self.follow())
            },
            MessageId::Bitfield => {
                self.bitfield = Bitfield::new(message.payload);
                Ok(self.follow())
            },
            MessageId::Interested => {
                self.status.peer_interested = true;
                if waiting {
                    self.status.peer_choked = false;
                    self.phase = Phase::Serving;
                    Ok(Step { send: bare(MessageId::Unchoke), next: Next::Read })
                } else {
                    Ok(self.follow())
                }
            },
            MessageId::NotInterested => {
                if waiting {
                    return Err(PeerSessionError::PeerNotInterested);
                }
                self.status.peer_interested = false;
                Ok(self.follow())
            },
            MessageId::Request => {
                match Request::from_bytes(message.payload.as_slice()) {
                    Some(request) => {
                        assert(request.index * self.piece_length + request.begin
                            <= 0xFFFF_FFFF_0000_0000) by (nonlinear_arith)
                            requires
                                0 <= request.index <= 0xFFFF_FFFF,
                                0 <= self.piece_length <= 0xFFFF_FFFF,
                                0 <= request.begin <= 0xFFFF_FFFF,
                        ;
                        let offset: u64 = (request.index as u64) * (self.piece_length as u64)
                            + request.begin as u64;
                        Ok(
                            Step {
                                send: Vec::new(),
                                next: Next::Serve {
                                    index: request.index,
                                    begin: request.begin,
                                    offset,
                                    length: request.length,
                                },
                            },
                        )
                    },
                    None => Err(PeerSessionError::MessageError(MessageId::Request)),
                }
            },
            MessageId::Piece => {
                if message.payload.len() < 8 {
                    return Err(PeerSessionError::MessageError(MessageId::Piece));
                }
                let downloading: bool = match self.phase {
                    Phase::Downloading => true,
                    _ => false,
                };
                if downloading && self.progress.awaited > 0 {
                    let block = vstd::slice::slice_subrange(
                        message.payload.as_slice(),
                        8,
                        message.payload.len(),
                    );
                    push_all(&mut self.piece, block);
                    self.progress.awaited = self.progress.awaited - 1;
                    if self.progress.awaited == 0 {
                        Ok(self.advance())
                    } else {
                        Ok(Step { send: Vec::new(), next: Next::Read })
                    }
                } else {
                    Ok(self.follow())
                }
            },
            _ => Ok(self.follow()),
        }
    }

    /// Takes the piece that the torrent's status selected for the peer's
    /// bitfield, in a session that asked for one. The session changes and
    /// answers as `on_selected` says; where that is an error, the session is
    /// left as it was.
    pub fn piece_selected(&mut self, picked: Option<u32>) -> (result: Result<
        Step,
        PeerSessionError,
    >)
        requires
            old(self).wf(),
        ensures
            final(self).wf(),
            final(self).setup() == old(self).setup(),
            match on_selected(old(self).setup(), old(self)@, picked) {
                Ok(outcome) => {
                    &&& result matches Ok(step)
                    &&& step.send@ == outcome.send
                    &&& step.next == outcome.next
                    &&& final(self)@ == outcome.state
                },
                Err(error) => result == Err::<Step, PeerSessionError>(error) && final(self)@
                    == old(self)@,
            },
    {
        let ready: bool = match self.phase {
            Phase::Ready => true,
            _ => false,
        };
        if !(ready && !self.status.choked && self.status.interested) {
            return Err(PeerSessionError::UnexpectedMessage);
        }
        let index: u32 = match picked {
            Some(index) => index,
            None => { return Err(PeerSessionError::NoPiecesLeftToDownloadInThisPeer); },
        };
        let blocks = self.complete_blocks_in_torrent_piece(index);
        let tail = self.last_block_size(index);
        self.phase = Phase::Downloading;
        self.piece = Vec::new();
        self.progress = Progress {
            index,
            blocks,
            tail,
            requested: 0,
            tail_requested: false,
            awaited: 0,
        };
        Ok(self.advance())
    }

    /// Takes the outcome of handing the buffered piece to the torrent's
    /// status. The session changes and answers as `on_committed` says; where
    /// that is an error, the session is left as it was.
    pub fn piece_committed(&mut self, outcome: Result<(), AtomicTorrentStatusError>) -> (result:
        Result<Step, PeerSessionError>)
        requires
            old(self).wf(),
        ensures
            final(self).wf(),
            final(self).setup() == old(self).setup(),
            match on_committed(old(self)@, outcome) {
                Ok(expected) => {
                    &&& result matches Ok(step)
                    &&& step.send@ == expected.send
                    &&& step.next == expected.next
                    &&& final(self)@ == expected.state
                },
                Err(error) => result == Err::<Step, PeerSessionError>(error) && final(self)@
                    == old(self)@,
            },
    {
        let downloading: bool = match self.phase {
            Phase::Downloading => true,
            _ => false,
        };
        let progress = self.progress;
        if !(downloading && progress.awaited == 0 && progress.requested == progress.blocks && (
        progress.tail == 0 || progress.tail_requested)) {
            return Err(PeerSessionError::UnexpectedMessage);
        }
        match outcome {
            Ok(_) => {
                self.phase = Phase::Ready;
                self.piece = Vec::new();
                self.failed = None;
                Ok(Step { send: Vec::new(), next: Next::Select })
            },
            Err(AtomicTorrentStatusError::HashMismatch) => {
                self.phase = Phase::Ready;
                self.piece = Vec::new();
                self.stalled = match self.failed {
                    Some(index) => index == progress.index,
                    None => false,
                };
                self.failed = Some(progress.index);
                Ok(Step { send: Vec::new(), next: Next::Abort { index: progress.index } })
            },
            Err(error) => Err(PeerSessionError::ErrorNotifyingPieceDownloaded(error)),
        }
    }

    /// Takes the outcome of setting free the piece whose digest was wrong.
    /// The session answers as `on_aborted` says and does not change: it asks
    /// for the next piece, or ends where the same piece failed twice
    /// running.
    pub fn piece_aborted(&mut self, outcome: Result<(), AtomicTorrentStatusError>) -> (result:
        Result<Step, PeerSessionError>)
        requires
            old(self).wf(),
        ensures
            final(self).wf(),
            final(self).setup() == old(self).setup(),
            final(self)@ == old(self)@,
            match on_aborted(old(self)@, outcome) {
                Ok(expected) => {
                    &&& result matches Ok(step)
                    &&& step.send@ == expected.send
                    &&& step.next == expected.next
                },
                Err(error) => result == Err::<Step, PeerSessionError>(error),
            },
    {
        match self.phase {
            Phase::Ready => {},
            _ => { return Err(PeerSessionError::UnexpectedMessage); },
        }
        match outcome {
            Ok(_) => if self.stalled {
                Err(PeerSessionError::NoPiecesLeftToDownloadInThisPeer)
            } else {
                Ok(Step { send: Vec::new(), next: Next::Select })
            },
            Err(error) => Err(PeerSessionError::ErrorAbortingPiece(error)),
        }
    }

    /// Takes the block that was read for a request of the peer, and answers
    /// with the piece message that carries it. The session changes and
    /// answers as `on_block` says; where that is an error, the session is
    /// left as it was.
    pub fn send_piece(&mut self, index: u32, begin: u32, block: &[u8]) -> (result: Result<
        Step,
        PeerSessionError,
    >)
        requires
            old(self).wf(),
        ensures
            final(self).wf(),
            final(self).setup() == old(self).setup(),
            match on_block(old(self)@, index, begin, block@) {
                Ok(expected) => {
                    &&& result matches Ok(step)
                    &&& step.send@ == expected.send
                    &&& step.next == expected.next
                    &&& final(self)@ == expected.state
                },
                Err(error) => result == Err::<Step, PeerSessionError>(error) && final(self)@
                    == old(self)@,
            },
    {
        match self.phase {
            Phase::Start => { return Err(PeerSessionError::UnexpectedMessage); },
            Phase::HandshakeSent => { return Err(PeerSessionError::UnexpectedMessage); },
            _ => {},
        }
        if block.len() > 0xFFFF_FFF6 {
            return Err(PeerSessionError::MessageError(MessageId::Piece));
        }
        let mut payload: Vec<u8> = Vec::new();
        push_be32(&mut payload, index);
        push_be32(&mut payload, begin);
        push_all(&mut payload, block);
        let mut send = Message::new(MessageId::Piece, payload).to_bytes();
        let after = self.follow();
        push_all(&mut send, after.send.as_slice());
        Ok(Step { send, next: after.next })
    }
}

} // verus!
