use vstd::prelude::*;

verus! {

/// How we stand with a peer at the start of a session.
#[derive(Debug, PartialEq, Eq, Clone, Copy, Structural)]
pub struct PeerStatus {
    /// The peer does not answer our requests.
    pub choked: bool,
    /// We want pieces from the peer.
    pub interested: bool,
}

impl Default for PeerStatus {
    /// Choked and not interested: how every session starts.
    fn default() -> (status: Self)
        ensures
            status == (PeerStatus { choked: true, interested: false }),
    {
        Self { choked: true, interested: false }
    }
}

} // verus!
