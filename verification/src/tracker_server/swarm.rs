//! The peers of one torrent, as the tracker knows them.

use crate::digest::same_bytes;
use crate::tracker_server::peer::Peer;
use chrono::Local;
use rand::seq::IteratorRandom;
use vstd::prelude::*;

verus! {

/// The peers of one torrent: each id once, with the numbers of those that
/// have the whole file and of those that do not.
pub struct Swarm {
    peers: Vec<Peer>,
    peer_timeout: i64,
    seeders: u32,
    leechers: u32,
}

/// Number of peers that still have bytes to download.
pub open spec fn count_leechers(peers: Seq<Peer>) -> nat
    decreases peers.len(),
{
    if peers.len() == 0 {
        0
    } else {
        count_leechers(peers.drop_last()) + if peers.last().leecher() {
            1nat
        } else {
            0nat
        }
    }
}

/// No two peers have the same id.
pub open spec fn distinct_ids(peers: Seq<Peer>) -> bool {
    forall|i: int, j: int|
        0 <= i < j < peers.len() ==> (#[trigger] peers[i]).id@ != (#[trigger] peers[j]).id@
}

/// Position of the peer with the given id, the number of peers where none
/// has it.
pub open spec fn position_of(peers: Seq<Peer>, id: Seq<u8>) -> int
    decreases peers.len(),
{
    if peers.len() == 0 {
        0
    } else if peers[0].id@ == id {
        0
    } else {
        1 + position_of(peers.drop_first(), id)
    }
}

/// The peers after one of them announced: it takes the place of the peer
/// with its id, or comes last where no peer has it.
pub open spec fn announced(peers: Seq<Peer>, incoming: Peer) -> Seq<Peer> {
    let position = position_of(peers, incoming.id@);
    if position < peers.len() {
        peers.update(position, incoming)
    } else {
        peers.push(incoming)
    }
}

/// The peer was seen within the timeout before `now`.
pub open spec fn active(peer: Peer, now: i64, timeout: i64) -> bool {
    now - peer.status.last_seen <= timeout
}

/// The peers that were seen within the timeout before `now`, in their
/// order.
pub open spec fn active_peers(peers: Seq<Peer>, now: i64, timeout: i64) -> Seq<Peer>
    decreases peers.len(),
{
    if peers.len() == 0 {
        Seq::empty()
    } else if active(peers.last(), now, timeout) {
        active_peers(peers.drop_last(), now, timeout).push(peers.last())
    } else {
        active_peers(peers.drop_last(), now, timeout)
    }
}

/// The peers at the given positions, in the order of the positions;
/// positions that name no peer are passed over.
pub open spec fn peers_at(peers: Seq<Peer>, positions: Seq<usize>) -> Seq<Peer>
    decreases positions.len(),
{
    if positions.len() == 0 {
        Seq::empty()
    } else if positions.last() < peers.len() {
        peers_at(peers, positions.drop_last()).push(peers[positions.last() as int])
    } else {
        peers_at(peers, positions.drop_last())
    }
}

/// There are never more leechers than peers.
pub proof fn lemma_count_bound(peers: Seq<Peer>)
    ensures
        count_leechers(peers) <= peers.len(),
    decreases peers.len(),
{
    if peers.len() > 0 {
        lemma_count_bound(peers.drop_last());
    }
}

/// A leecher among the peers is counted, and so is a seeder.
pub proof fn lemma_count_member(peers: Seq<Peer>, position: int)
    requires
        0 <= position < peers.len(),
    ensures
        peers[position].leecher() ==> count_leechers(peers) >= 1,
        !peers[position].leecher() ==> peers.len() - count_leechers(peers) >= 1,
    decreases peers.len(),
{
    lemma_count_bound(peers.drop_last());
    if position < peers.len() - 1 {
        lemma_count_member(peers.drop_last(), position);
    }
}

/// Replacing a peer moves the count by what the old and the new one are.
pub proof fn lemma_count_update(peers: Seq<Peer>, position: int, incoming: Peer)
    requires
        0 <= position < peers.len(),
    ensures
        count_leechers(peers.update(position, incoming)) + (if peers[position].leecher() {
            1int
        } else {
            0int
        }) == count_leechers(peers) + (if incoming.leecher() {
            1int
        } else {
            0int
        }),
    decreases peers.len(),
{
    let changed = peers.update(position, incoming);
    if position == peers.len() - 1 {
        assert(changed.drop_last() =~= peers.drop_last());
    } else {
        assert(changed.drop_last() =~= peers.drop_last().update(position, incoming));
        lemma_count_update(peers.drop_last(), position, incoming);
    }
}

/// The position of an id is where the first peer with it stands.
pub proof fn lemma_position(peers: Seq<Peer>, id: Seq<u8>)
    ensures
        0 <= position_of(peers, id) <= peers.len(),
        position_of(peers, id) < peers.len() ==> peers[position_of(peers, id)].id@ == id,
        forall|i: int| 0 <= i < position_of(peers, id) ==> (#[trigger] peers[i]).id@ != id,
    decreases peers.len(),
{
    if peers.len() > 0 && peers[0].id@ != id {
        let rest = peers.drop_first();
        lemma_position(rest, id);
        assert forall|i: int| 0 <= i < position_of(peers, id) implies (#[trigger] peers[i]).id@
            != id by {
            if i > 0 {
                assert(rest[i - 1] == peers[i]);
            }
        }
    }
}

/// An announce keeps the ids apart.
pub proof fn lemma_announced_distinct(peers: Seq<Peer>, incoming: Peer)
    requires
        distinct_ids(peers),
    ensures
        distinct_ids(announced(peers, incoming)),
{
    lemma_position(peers, incoming.id@);
    let position = position_of(peers, incoming.id@);
    let after = announced(peers, incoming);
    assert forall|i: int, j: int| 0 <= i < j < after.len() implies (#[trigger] after[i]).id@ != (
    #[trigger] after[j]).id@ by {
        if position < peers.len() {
            assert(peers[i].id@ != peers[j].id@);
            assert(after[i].id@ == peers[i].id@);
            assert(after[j].id@ == peers[j].id@);
        } else {
            if j < peers.len() {
                assert(peers[i].id@ != peers[j].id@);
            } else {
                assert(peers[i].id@ != incoming.id@);
            }
        }
    }
}

/// The peer stands among the first `upto` peers.
pub open spec fn stands_before(peers: Seq<Peer>, upto: int, peer: Peer) -> bool {
    exists|before: int| 0 <= before < upto && before < peers.len() && peers[before] == peer
}

/// Every active peer is one of the peers, and they stand in their order.
pub proof fn lemma_active_from(peers: Seq<Peer>, now: i64, timeout: i64, position: int) -> (source:
    int)
    requires
        0 <= position < active_peers(peers, now, timeout).len(),
    ensures
        0 <= source < peers.len(),
        peers[source] == active_peers(peers, now, timeout)[position],
        active(peers[source], now, timeout),
        forall|earlier: int|
            0 <= earlier < position ==> stands_before(
                peers,
                source,
                #[trigger] active_peers(peers, now, timeout)[earlier],
            ),
    decreases peers.len(),
{
    let kept = active_peers(peers, now, timeout);
    let front = peers.drop_last();
    let front_kept = active_peers(front, now, timeout);
    if active(peers.last(), now, timeout) && position == kept.len() - 1 {
        let source = peers.len() - 1;
        assert forall|earlier: int| 0 <= earlier < position implies stands_before(
            peers,
            source,
            #[trigger] kept[earlier],
        ) by {
            let before = lemma_active_from(front, now, timeout, earlier);
            assert(kept[earlier] == front_kept[earlier]);
            assert(peers[before] == front[before]);
        }
        source
    } else {
        assert(kept[position] == front_kept[position]);
        let source = lemma_active_from(front, now, timeout, position);
        assert(peers[source] == front[source]);
        assert forall|earlier: int| 0 <= earlier < position implies stands_before(
            peers,
            source,
            #[trigger] kept[earlier],
        ) by {
            assert(kept[earlier] == front_kept[earlier]);
            assert(stands_before(front, source, front_kept[earlier]));
            let before = choose|before: int|
                0 <= before < source && before < front.len() && front[before]
                    == front_kept[earlier];
            assert(peers[before] == front[before]);
        }
        source
    }
}

/// There are never more active peers than peers.
pub proof fn lemma_active_len(peers: Seq<Peer>, now: i64, timeout: i64)
    ensures
        active_peers(peers, now, timeout).len() <= peers.len(),
    decreases peers.len(),
{
    if peers.len() > 0 {
        lemma_active_len(peers.drop_last(), now, timeout);
    }
}

/// Dropping the peers that are not active keeps the ids apart.
pub proof fn lemma_active_distinct(peers: Seq<Peer>, now: i64, timeout: i64)
    requires
        distinct_ids(peers),
    ensures
        distinct_ids(active_peers(peers, now, timeout)),
{
    let kept = active_peers(peers, now, timeout);
    assert forall|i: int, j: int| 0 <= i < j < kept.len() implies (#[trigger] kept[i]).id@ != (
    #[trigger] kept[j]).id@ by {
        let source = lemma_active_from(peers, now, timeout, j);
        assert(stands_before(peers, source, kept[i]));
        let before = choose|before: int|
            0 <= before < source && before < peers.len() && peers[before] == kept[i];
        assert(peers[before].id@ != peers[source].id@);
    }
}

/// `Local::now` of the `chrono` crate, as seconds since the epoch. Nothing
/// is believed of it: the time is whatever the clock says.
#[verifier::external_body]
fn now_seconds() -> i64 {
    Local::now().timestamp()
}

/// `IteratorRandom::choose_multiple` of the `rand` crate over the
/// positions of the given peers, with the generator of the current thread.
/// No more positions are asked for than there are peers: the call sets
/// aside room for as many as are asked for before it looks at anything, and
/// room for one position each is never more than the peers themselves take.
/// Believed, not proved: as many positions come back as were asked for,
/// each names one of the peers, and none comes twice. Which they are is up
/// to the generator.
#[verifier::external_body]
fn choose_positions(peers: &Vec<Peer>, amount: usize) -> (chosen: Vec<usize>)
    requires
        amount <= peers@.len(),
    ensures
        chosen@.len() == amount,
        forall|i: int| 0 <= i < chosen@.len() ==> #[trigger] chosen@[i] < peers@.len(),
        forall|i: int, j: int| 0 <= i < j < chosen@.len() ==> chosen@[i] != chosen@[j],
{
    (0..peers.len()).choose_multiple(&mut rand::thread_rng(), amount)
}

impl Swarm {
    /// The peers of the swarm.
    pub closed spec fn peers(&self) -> Seq<Peer> {
        self.peers@
    }

    /// Seconds after which a peer that did not announce is dropped.
    pub closed spec fn timeout(&self) -> i64 {
        self.peer_timeout
    }

    /// No two peers have the same id, and the counters agree with the
    /// peers.
    pub closed spec fn wf(&self) -> bool {
        &&& distinct_ids(self.peers@)
        &&& self.peers@.len() <= u32::MAX
        &&& self.leechers == count_leechers(self.peers@)
        &&& self.seeders == self.peers@.len() - count_leechers(self.peers@)
    }

    /// A swarm without peers, which drops a peer that has not announced
    /// for `peer_timeout` seconds.
    pub fn new(peer_timeout: i64) -> (swarm: Self)
        ensures
            swarm.wf(),
            swarm.peers() == Seq::<Peer>::empty(),
            swarm.timeout() == peer_timeout,
    {
        Self { peers: Vec::new(), peer_timeout, seeders: 0, leechers: 0 }
    }

    /// Number of peers.
    pub fn len(&self) -> (count: usize)
        ensures
            count == self.peers().len(),
    {
        self.peers.len()
    }

    /// Number of peers that have the whole file, and of those that do not.
    pub fn counters(&self) -> (counters: (u32, u32))
        requires
            self.wf(),
        ensures
            counters.0 == self.peers().len() - count_leechers(self.peers()),
            counters.1 == count_leechers(self.peers()),
    {
        (self.seeders, self.leechers)
    }

    /// Takes the announce of a peer: it replaces what was known of the
    /// peer with its id, or joins the swarm. A swarm that is as large as
    /// its counters can count takes no new peer.
    pub fn announce(&mut self, incoming_peer: Peer)
        requires
            old(self).wf(),
        ensures
            final(self).wf(),
            final(self).timeout() == old(self).timeout(),
            final(self).peers() == (if position_of(old(self).peers(), incoming_peer.id@) == old(
                self,
            ).peers().len() && old(self).peers().len() == u32::MAX {
                old(self).peers()
            } else {
                announced(old(self).peers(), incoming_peer)
            }),
    {
        proof {
            lemma_position(self.peers@, incoming_peer.id@);
            lemma_announced_distinct(self.peers@, incoming_peer);
            lemma_count_bound(self.peers@);
        }
        let mut at: usize = 0;
        let mut found: bool = false;
        while at < self.peers.len() && !found
            invariant
                at <= self.peers@.len(),
                self == old(self),
                forall|i: int| 0 <= i < at ==> (#[trigger] self.peers@[i]).id@ != incoming_peer.id@,
                found ==> at < self.peers@.len() && self.peers@[at as int].id@
                    == incoming_peer.id@,
            decreases self.peers@.len() - at + if found {
                0int
            } else {
                1int
            },
        {
            if same_bytes(self.peers[at].id.as_slice(), incoming_peer.id.as_slice()) {
                found = true;
            } else {
                at += 1;
            }
        }
        assert(at == position_of(self.peers@, incoming_peer.id@)) by {
            lemma_position(self.peers@, incoming_peer.id@);
            let position = position_of(self.peers@, incoming_peer.id@);
            if position < at {
                assert(self.peers@[position].id@ == incoming_peer.id@);
            }
            if at < position {
                assert(self.peers@[at as int].id@ != incoming_peer.id@);
            }
        }
        if at < self.peers.len() {
            proof {
                lemma_count_update(self.peers@, at as int, incoming_peer);
                lemma_count_bound(self.peers@.update(at as int, incoming_peer));
                lemma_count_member(self.peers@, at as int);
            }
            if self.peers[at].is_leecher() {
                self.leechers = self.leechers - 1;
            } else {
                self.seeders = self.seeders - 1;
            }
            if incoming_peer.is_leecher() {
                self.leechers = self.leechers + 1;
            } else {
                self.seeders = self.seeders + 1;
            }
            self.peers.set(at, incoming_peer);
        } else if self.peers.len() < 0xFFFF_FFFF {
            proof {
                assert(self.peers@.push(incoming_peer).drop_last() =~= self.peers@);
            }
            if incoming_peer.is_leecher() {
                self.leechers = self.leechers + 1;
            } else {
                self.seeders = self.seeders + 1;
            }
            self.peers.push(incoming_peer);
        }
    }

    /// Copies of the peers at the given positions, in the order of the
    /// positions, with the numbers of seeders and leechers of the swarm.
    pub fn get_peers_at(&self, positions: &[usize]) -> (found: (Vec<Peer>, u32, u32))
        requires
            self.wf(),
        ensures
            found.0@ == peers_at(self.peers(), positions@),
            found.1 == self.peers().len() - count_leechers(self.peers()),
            found.2 == count_leechers(self.peers()),
    {
        let mut found: Vec<Peer> = Vec::new();
        let mut at: usize = 0;
        while at < positions.len()
            invariant
                at <= positions@.len(),
                found@ == peers_at(self.peers@, positions@.subrange(0, at as int)),
            decreases positions@.len() - at,
        {
            let ghost longer = positions@.subrange(0, at + 1);
            proof {
                assert(longer.drop_last() =~= positions@.subrange(0, at as int));
                assert(longer.last() == positions@[at as int]);
            }
            let position = positions[at];
            if position < self.peers.len() {
                found.push(self.peers[position].duplicate());
            }
            at += 1;
        }
        assert(positions@.subrange(0, at as int) =~= positions@);
        (found, self.seeders, self.leechers)
    }

    /// Copies of as many peers as are wanted, drawn at random without
    /// taking any twice, or of all peers where fewer are there; with the
    /// numbers of seeders and leechers of the swarm.
    pub fn get_active_peers(&self, wanted_peers: u32) -> (found: (Vec<Peer>, u32, u32))
        requires
            self.wf(),
        ensures
            found.1 == self.peers().len() - count_leechers(self.peers()),
            found.2 == count_leechers(self.peers()),
            exists|positions: Seq<usize>|
                {
                    &&& positions.len() == (if wanted_peers < self.peers().len() {
                        wanted_peers as int
                    } else {
                        self.peers().len() as int
                    })
                    &&& (forall|i: int|
                        0 <= i < positions.len() ==> #[trigger] positions[i] < self.peers().len())
                    &&& (forall|i: int, j: int|
                        0 <= i < j < positions.len() ==> positions[i] != positions[j])
                    &&& found.0@ == peers_at(self.peers(), positions)
                },
    {
        let count: usize = self.peers.len();
        let wanted: usize = if (wanted_peers as usize) < count {
            wanted_peers as usize
        } else {
            count
        };
        let positions = choose_positions(&self.peers, wanted);
        self.get_peers_at(positions.as_slice())
    }

    /// Drops the peers that have not announced within the timeout before
    /// `now`, given in seconds since the epoch.
    pub fn remove_inactive_peers_at(&mut self, now: i64)
        requires
            old(self).wf(),
        ensures
            final(self).wf(),
            final(self).timeout() == old(self).timeout(),
            final(self).peers() == active_peers(old(self).peers(), now, old(self).timeout()),
    {
        proof {
            lemma_active_distinct(self.peers@, now, self.peer_timeout);
            lemma_active_len(self.peers@, now, self.peer_timeout);
        }
        let mut kept: Vec<Peer> = Vec::new();
        let mut leechers: u32 = 0;
        let mut at: usize = 0;
        while at < self.peers.len()
            invariant
                at <= self.peers@.len(),
                self == old(self),
                self.peers@.len() <= u32::MAX,
                kept@ == active_peers(self.peers@.subrange(0, at as int), now, self.peer_timeout),
                leechers == count_leechers(kept@),
                kept@.len() <= at,
            decreases self.peers@.len() - at,
        {
            let ghost longer = self.peers@.subrange(0, at + 1);
            proof {
                assert(longer.drop_last() =~= self.peers@.subrange(0, at as int));
                assert(longer.last() == self.peers@[at as int]);
            }
            let last_seen: i64 = self.peers[at].get_last_seen();
            if now as i128 - last_seen as i128 <= self.peer_timeout as i128 {
                proof {
                    assert(kept@.push(self.peers@[at as int]).drop_last() =~= kept@);
                    lemma_count_bound(kept@);
                }
                if self.peers[at].is_leecher() {
                    leechers = leechers + 1;
                }
                kept.push(self.peers[at].duplicate());
            }
            at += 1;
        }
        proof {
            assert(self.peers@.subrange(0, at as int) =~= self.peers@);
            lemma_count_bound(kept@);
        }
        self.seeders = (kept.len() - leechers as usize) as u32;
        self.leechers = leechers;
        self.peers = kept;
    }

    /// Drops the peers that have not announced within the timeout before
    /// now. Every peer that stays was in the swarm, and no peer comes in.
    pub fn remove_inactive_peers(&mut self)
        requires
            old(self).wf(),
        ensures
            final(self).wf(),
            final(self).timeout() == old(self).timeout(),
            exists|now: i64|
                final(self).peers() == active_peers(old(self).peers(), now, old(self).timeout()),
    {
        let now = now_seconds();
        self.remove_inactive_peers_at(now);
    }
}

} // verus!
