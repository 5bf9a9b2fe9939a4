//! The decisions of the driver of one torrent: when to ask the tracker for
//! peers, when to open a session, when to wait for one to end.

use crate::config::cfg::Cfg;
use crate::peer::bt_peer::BtPeer;
use crate::peer::peer_session::PeerSessionError;
use crate::torrent_handler::piece_status::PieceStatus;
use crate::torrent_handler::status::{
    count_of, AtomicTorrentStatus, AtomicTorrentStatusError, StatusView,
};
use crate::torrent_parser::torrent::Torrent;
use vstd::prelude::*;

verus! {

/// Why the driver of a torrent gives up.
#[derive(Debug, PartialEq, Eq, Clone, Copy, Structural)]
pub enum TorrentHandlerError {
    /// The tracker could not be reached or gave no usable answer.
    TrackerError,
    /// The status of the torrent refused an operation.
    TorrentStatusError(AtomicTorrentStatusError),
    /// A session could not be set up.
    PeerSessionError(PeerSessionError),
    /// Nobody is left to report that a session ended.
    TorrentStatusRecvError,
}

/// What the driver is told.
#[derive(Debug, PartialEq, Eq, Clone)]
pub enum HandlerEvent {
    /// Nothing happened: the driver starts, or did what it was asked.
    Resume,
    /// The tracker answered with these peers.
    Peers(Vec<BtPeer>),
    /// A session ended and left this many connected.
    Disconnected(usize),
    /// The session that was to be opened last could not be started.
    SpawnFailed,
}

/// What the driver asks for.
#[derive(Debug, PartialEq, Eq, Clone)]
pub enum HandlerAction {
    /// Ask the tracker for peers and report them.
    FetchPeers,
    /// Wait for a session to end and report how many it left connected.
    WaitForDisconnect,
    /// Open a session with this peer, which is counted as connected.
    Connect(BtPeer),
    /// The download is finished: stop.
    Finished,
}

/// The driver as contracts see it.
pub struct HandlerView {
    /// The peers of the last answer that were not connected to yet.
    pub queue: Seq<BtPeer>,
    /// The driver waits for a session to end.
    pub waiting: bool,
    /// A session ended and left room for the next peer.
    pub granted: bool,
}

/// A decision of the driver: what it becomes, how many sessions are counted
/// as connected, and what it asks for.
pub struct HandlerOutcome {
    pub view: HandlerView,
    pub connected: nat,
    pub action: HandlerAction,
}

/// The count of connected sessions after one more connected.
pub open spec fn one_more(connected: nat) -> nat {
    if connected < usize::MAX {
        connected + 1
    } else {
        connected
    }
}

/// What the driver decides where it stands.
///
/// With a peer in the queue: while the sessions are at their maximum and no
/// room was granted, it waits; once the download is finished it drops the
/// queue and stops; otherwise it counts the peer as connected and asks for
/// a session with it. With an empty queue it stops once the download is
/// finished, and asks the tracker for peers until then.
pub open spec fn decided(view: HandlerView, connected: nat, finished: bool, max: nat) -> HandlerOutcome {
    if view.queue.len() > 0 {
        if !view.granted && connected >= max {
            HandlerOutcome {
                view: HandlerView { waiting: true, ..view },
                connected,
                action: HandlerAction::WaitForDisconnect,
            }
        } else if finished {
            HandlerOutcome {
                view: HandlerView { queue: Seq::empty(), waiting: false, granted: false },
                connected,
                action: HandlerAction::Finished,
            }
        } else {
            HandlerOutcome {
                view: HandlerView {
                    queue: view.queue.drop_first(),
                    waiting: false,
                    granted: false,
                },
                connected: one_more(connected),
                action: HandlerAction::Connect(view.queue[0]),
            }
        }
    } else if finished {
        HandlerOutcome { view, connected, action: HandlerAction::Finished }
    } else {
        HandlerOutcome { view, connected, action: HandlerAction::FetchPeers }
    }
}

/// What an event makes of the driver before it decides. New peers replace
/// the queue. A session that ended and left one less than the maximum
/// connected grants room to a driver that waits; any other count is stale
/// and changes nothing.
pub open spec fn absorbed(view: HandlerView, event: HandlerEvent, max: nat) -> HandlerView {
    match event {
        HandlerEvent::Resume => view,
        HandlerEvent::Peers(peers) => HandlerView { queue: peers@, waiting: false, granted: false },
        HandlerEvent::Disconnected(left) => if view.waiting && left + 1 == max {
            HandlerView { waiting: false, granted: true, ..view }
        } else {
            view
        },
        HandlerEvent::SpawnFailed => view,
    }
}

/// The driver of one torrent's download.
pub struct TorrentHandler {
    torrent: Torrent,
    config: Cfg,
    queue: Vec<BtPeer>,
    waiting: bool,
    granted: bool,
}

impl View for TorrentHandler {
    type V = HandlerView;

    closed spec fn view(&self) -> HandlerView {
        HandlerView { queue: self.queue@, waiting: self.waiting, granted: self.granted }
    }
}

impl TorrentHandler {
    /// The torrent that the driver was made for.
    pub closed spec fn driven(&self) -> Torrent {
        self.torrent
    }

    /// The settings that the driver was made with.
    pub closed spec fn settings(&self) -> Cfg {
        self.config
    }

    /// The most sessions that the driver keeps open at a time: what its
    /// settings allow for one torrent.
    pub open spec fn max_peers(&self) -> nat {
        self.settings().max_peers_per_torrent as nat
    }

    /// A driver for a torrent that has not asked for anything yet.
    pub fn new(torrent: Torrent, config: Cfg) -> (handler: Self)
        ensures
            handler@ == (HandlerView { queue: Seq::empty(), waiting: false, granted: false }),
            handler.driven() == torrent,
            handler.settings() == config,
    {
        Self { torrent, config, queue: Vec::new(), waiting: false, granted: false }
    }

    /// The torrent that the driver was made for, whose announce address
    /// names the tracker to ask.
    pub fn torrent(&self) -> (torrent: &Torrent)
        ensures
            *torrent == self.driven(),
    {
        &self.torrent
    }

    /// The settings that the driver was made with.
    pub fn config(&self) -> (config: &Cfg)
        ensures
            *config == self.settings(),
    {
        &self.config
    }

    /// Takes an event and says what is to be done next.
    ///
    /// The event is absorbed as `absorbed` says; a session that could not be
    /// started is first counted as gone again. Then the driver decides as
    /// `decided` says, on the count of connected sessions and on whether
    /// every piece is finished. The only error is that of a count that
    /// cannot be taken back, which leaves driver and status unchanged.
    pub fn handle(&mut self, status: &mut AtomicTorrentStatus, event: HandlerEvent) -> (result:
        Result<HandlerAction, TorrentHandlerError>)
        requires
            old(status).wf(),
        ensures
            final(status).wf(),
            final(status).torrent() == old(status).torrent(),
            final(status).settings() == old(status).settings(),
            final(self).driven() == old(self).driven(),
            final(self).settings() == old(self).settings(),
            event is SpawnFailed && old(status)@.peers == 0 ==> {
                &&& result == Err::<HandlerAction, TorrentHandlerError>(
                    TorrentHandlerError::TorrentStatusError(
                        AtomicTorrentStatusError::NoPeersConnected,
                    ),
                )
                &&& final(self)@ == old(self)@
                &&& final(status)@ == old(status)@
            },
            !(event is SpawnFailed && old(status)@.peers == 0) ==> {
                let before = if event is SpawnFailed {
                    (old(status)@.peers - 1) as nat
                } else {
                    old(status)@.peers
                };
                let outcome = decided(
                    absorbed(old(self)@, event, old(self).max_peers()),
                    before,
                    count_of(old(status)@.pieces, PieceStatus::Finished) == old(
                        status,
                    )@.pieces.len(),
                    old(self).max_peers(),
                );
                &&& result == Ok::<HandlerAction, TorrentHandlerError>(outcome.action)
                &&& final(self)@ == outcome.view
                &&& final(status)@ == (StatusView { peers: outcome.connected, ..old(status)@ })
            },
    {
        match event {
            HandlerEvent::Resume => {},
            HandlerEvent::Peers(peers) => {
                self.queue = peers;
                self.waiting = false;
                self.granted = false;
            },
            HandlerEvent::Disconnected(left) => {
                if self.waiting && left < usize::MAX && left + 1
                    == self.config.max_peers_per_torrent as usize {
                    self.waiting = false;
                    self.granted = true;
                }
            },
            HandlerEvent::SpawnFailed => {
                match status.peer_disconnected() {
                    Ok(_) => {},
                    Err(error) => {
                        return Err(TorrentHandlerError::TorrentStatusError(error));
                    },
                }
            },
        }
        if self.queue.len() > 0 {
            if !self.granted && status.current_peers()
                >= self.config.max_peers_per_torrent as usize {
                self.waiting = true;
                Ok(HandlerAction::WaitForDisconnect)
            } else if status.is_finished() {
                self.queue = Vec::new();
                self.waiting = false;
                self.granted = false;
                Ok(HandlerAction::Finished)
            } else {
                status.peer_connected();
                let peer = self.queue.remove(0);
                self.waiting = false;
                self.granted = false;
                Ok(HandlerAction::Connect(peer))
            }
        } else if status.is_finished() {
            Ok(HandlerAction::Finished)
        } else {
            Ok(HandlerAction::FetchPeers)
        }
    }
}

} // verus!
