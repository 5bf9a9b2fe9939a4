use vstd::prelude::*;

verus! {

/// The four flags of a session.
#[derive(Debug, PartialEq, Eq, Clone, Copy, Structural)]
pub struct SessionStatus {
    /// The peer does not answer our requests.
    pub choked: bool,
    /// We want pieces from the peer.
    pub interested: bool,
    /// We do not answer the peer's requests.
    pub peer_choked: bool,
    /// The peer wants pieces from us.
    pub peer_interested: bool,
}

impl SessionStatus {
    /// The flags at the start of a session: both sides choked, nobody
    /// interested.
    pub fn new() -> (status: Self)
        ensures
            status == (SessionStatus {
                choked: true,
                interested: false,
                peer_choked: true,
                peer_interested: false,
            }),
    {
        Self { choked: true, interested: false, peer_choked: true, peer_interested: false }
    }
}

} // verus!
