use vstd::prelude::*;

verus! {

/// What a peer says of itself when it announces.
#[derive(Debug, PartialEq, Eq, Clone, Copy, Structural)]
pub enum PeerEvent {
    /// The peer has started downloading the torrent.
    Started,
    /// The peer has stopped downloading the torrent.
    Stopped,
    /// The peer has completed downloading the torrent.
    Completed,
}

/// What the tracker knows of the progress of a peer.
#[derive(Debug, PartialEq, Eq, Clone)]
pub struct PeerStatus {
    pub uploaded: u64,
    pub downloaded: u64,
    pub left: u64,
    pub event: Option<PeerEvent>,
    /// When the peer announced last, in seconds since the epoch.
    pub last_seen: i64,
    pub real_ip: Option<String>,
}

/// A peer as the tracker knows it.
#[derive(Debug, PartialEq, Eq, Clone)]
pub struct Peer {
    pub id: [u8; 20],
    pub ip: String,
    pub port: u16,
    pub status: PeerStatus,
    pub key: Option<String>,
}

impl PeerStatus {
    /// A copy with the same values.
    pub fn duplicate(&self) -> (copy: PeerStatus)
        ensures
            copy == *self,
    {
        PeerStatus {
            uploaded: self.uploaded,
            downloaded: self.downloaded,
            left: self.left,
            event: self.event,
            last_seen: self.last_seen,
            real_ip: match &self.real_ip {
                Some(address) => Some(address.clone()),
                None => None,
            },
        }
    }
}

impl Peer {
    /// The peer still has bytes to download.
    pub open spec fn leecher(&self) -> bool {
        self.status.left > 0
    }

    /// Tells whether the peer still has bytes to download.
    pub fn is_leecher(&self) -> (leecher: bool)
        ensures
            leecher == self.leecher(),
    {
        self.status.left > 0
    }

    /// When the peer announced last, in seconds since the epoch.
    pub fn get_last_seen(&self) -> (last_seen: i64)
        ensures
            last_seen == self.status.last_seen,
    {
        self.status.last_seen
    }

    /// A copy with the same values.
    pub fn duplicate(&self) -> (copy: Peer)
        ensures
            copy == *self,
    {
        Peer {
            id: self.id,
            ip: self.ip.clone(),
            port: self.port,
            status: self.status.duplicate(),
            key: match &self.key {
                Some(key) => Some(key.clone()),
                None => None,
            },
        }
    }

    /// A peer with the given id, address, port, key and progress.
    pub fn new(id: [u8; 20], ip: String, port: u16, key: Option<String>, status: PeerStatus) -> (peer:
        Peer)
        ensures
            peer.id == id,
            peer.ip == ip,
            peer.port == port,
            peer.key == key,
            peer.status == status,
    {
        Peer { id, ip, port, status, key }
    }
}

} // verus!
