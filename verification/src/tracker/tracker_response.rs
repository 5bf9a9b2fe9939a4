use crate::digest::same_bytes;
use crate::encoder_decoder::bencode::{
    entries_value, fold_entries, items_value, lemma_dict_value, lemma_fold_error_stays,
    lemma_fold_next, lemma_list_value, parse, Bencode, BencodeError, Value,
};
use crate::peer::bt_peer::{peer_of, BtPeer, FromBtPeerError, PeerFields};
use vstd::prelude::*;
use vstd::string::StringSliceAdditionalSpecFns;

verus! {

/// The answer of a tracker to an announce.
#[derive(Debug, PartialEq, Eq, Clone)]
pub struct TrackerResponse {
    /// Seconds to wait before the next announce.
    pub interval: i64,
    /// Number of peers that have the whole file.
    pub complete: i64,
    /// Number of peers that do not.
    pub incomplete: i64,
    /// The peers to connect to.
    pub peers: Vec<BtPeer>,
}

/// Why the answer of a tracker could not be read.
#[derive(Debug, PartialEq, Eq, Clone, Copy, Structural)]
pub enum FromTrackerResponseError {
    /// The answer is no bencoded value.
    DecodeResponseError(BencodeError),
    InvalidInterval,
    InvalidComplete,
    InvalidIncomplete,
    /// An entry of the peer list is no peer.
    InvalidPeers(FromBtPeerError),
    /// The answer is no dictionary.
    NotADict,
    /// The peers are no list.
    NotAList,
}

/// What was read of an answer so far.
pub struct ResponseFields {
    pub interval: i64,
    pub complete: i64,
    pub incomplete: i64,
    pub peers: Seq<PeerFields>,
}

/// The peers that the items of a list are, the first error where one is
/// none.
pub open spec fn peers_of(items: Seq<Value>) -> Result<Seq<PeerFields>, FromTrackerResponseError>
    decreases items.len(),
{
    if items.len() == 0 {
        Ok(Seq::empty())
    } else {
        match peers_of(items.drop_last()) {
            Ok(peers) => match peer_of(items.last()) {
                Ok(peer) => Ok(peers.push(peer)),
                Err(error) => Err(FromTrackerResponseError::InvalidPeers(error)),
            },
            Err(error) => Err(error),
        }
    }
}

/// What one entry adds to what was read of an answer: numbers under
/// `interval`, `complete` and `incomplete`, a list of peers under `peers`;
/// any other key adds nothing.
pub open spec fn response_entry(fields: ResponseFields, key: Seq<u8>, value: Value) -> Result<
    ResponseFields,
    FromTrackerResponseError,
> {
    if key == "interval".spec_bytes() {
        match value {
            Value::Number(interval) => Ok(ResponseFields { interval, ..fields }),
            _ => Err(FromTrackerResponseError::InvalidInterval),
        }
    } else if key == "complete".spec_bytes() {
        match value {
            Value::Number(complete) => Ok(ResponseFields { complete, ..fields }),
            _ => Err(FromTrackerResponseError::InvalidComplete),
        }
    } else if key == "incomplete".spec_bytes() {
        match value {
            Value::Number(incomplete) => Ok(ResponseFields { incomplete, ..fields }),
            _ => Err(FromTrackerResponseError::InvalidIncomplete),
        }
    } else if key == "peers".spec_bytes() {
        match value {
            Value::List(items) => match peers_of(items) {
                Ok(peers) => Ok(ResponseFields { peers, ..fields }),
                Err(error) => Err(error),
            },
            _ => Err(FromTrackerResponseError::NotAList),
        }
    } else {
        Ok(fields)
    }
}

/// The step that reads one entry of an answer.
pub open spec fn response_step() -> spec_fn(ResponseFields, Seq<u8>, Value) -> Result<
    ResponseFields,
    FromTrackerResponseError,
> {
    |fields: ResponseFields, key: Seq<u8>, value: Value| response_entry(fields, key, value)
}

/// What is known of an answer before any entry is read.
pub open spec fn empty_response() -> ResponseFields {
    ResponseFields { interval: 0, complete: 0, incomplete: 0, peers: Seq::empty() }
}

/// The answer that bytes are: a bencoded dictionary, read entry by entry.
pub open spec fn response_of(bytes: Seq<u8>) -> Result<ResponseFields, FromTrackerResponseError> {
    match parse(bytes, 0) {
        Err(error) => Err(FromTrackerResponseError::DecodeResponseError(error)),
        Ok((value, _)) => match value {
            Value::Dict(entries) => fold_entries(entries, empty_response(), response_step()),
            _ => Err(FromTrackerResponseError::NotADict),
        },
    }
}

impl TrackerResponse {
    /// The answer is what was read.
    pub open spec fn has_fields(&self, fields: ResponseFields) -> bool {
        &&& self.interval == fields.interval
        &&& self.complete == fields.complete
        &&& self.incomplete == fields.incomplete
        &&& self.peers@.len() == fields.peers.len()
        &&& forall|i: int|
            0 <= i < fields.peers.len() ==> (#[trigger] self.peers@[i]).has_fields(fields.peers[i])
    }

    /// Reads the answer of a tracker.
    ///
    /// The bytes have to be a bencoded value (`DecodeResponseError`) that
    /// is a dictionary (`NotADict`). `interval`, `complete` and `incomplete`
    /// have to be numbers, `peers` a list (`NotAList`) of peers
    /// (`InvalidPeers`). What is not given stays zero, or empty.
    #[verifier::loop_isolation(false)]
    pub fn from(response: Vec<u8>) -> (result: Result<TrackerResponse, FromTrackerResponseError>)
        ensures
            match response_of(response@) {
                Ok(fields) => result matches Ok(read) && read.has_fields(fields),
                Err(error) => result == Err::<TrackerResponse, FromTrackerResponseError>(error),
            },
    {
        let decoded = match Bencode::decode(response.as_slice()) {
            Ok(decoded) => decoded,
            Err(error) => { return Err(FromTrackerResponseError::DecodeResponseError(error)); },
        };
        let entries = match decoded {
            Bencode::BDict(entries) => entries,
            _ => { return Err(FromTrackerResponseError::NotADict); },
        };
        proof {
            lemma_dict_value(entries);
        }
        let ghost values = entries_value(entries@);
        let mut interval: i64 = 0;
        let mut complete: i64 = 0;
        let mut incomplete: i64 = 0;
        let mut peers: Vec<BtPeer> = Vec::new();
        let ghost mut read = empty_response();
        let mut at: usize = 0;
        while at < entries.len()
            invariant
                at <= entries@.len(),
                fold_entries(values.subrange(0, at as int), empty_response(), response_step())
                    == Ok::<ResponseFields, FromTrackerResponseError>(read),
                read.interval == interval,
                read.complete == complete,
                read.incomplete == incomplete,
                peers@.len() == read.peers.len(),
                forall|i: int|
                    0 <= i < read.peers.len() ==> (#[trigger] peers@[i]).has_fields(read.peers[i]),
            decreases entries@.len() - at,
        {
            proof {
                lemma_fold_next(values, empty_response(), response_step(), at as int);
                if fold_entries(values.subrange(0, at + 1), empty_response(), response_step())
                    is Err {
                    lemma_fold_error_stays(values, empty_response(), response_step(), at + 1);
                }
            }
            let key = entries[at].0.as_slice();
            if same_bytes(key, "interval".as_bytes()) {
                interval = match TrackerResponse::create_interval(&entries[at].1) {
                    Ok(number) => number,
                    Err(error) => { return Err(error); },
                };
                proof {
                    read = ResponseFields { interval, ..read };
                }
            } else if same_bytes(key, "complete".as_bytes()) {
                complete = match TrackerResponse::create_complete(&entries[at].1) {
                    Ok(number) => number,
                    Err(error) => { return Err(error); },
                };
                proof {
                    read = ResponseFields { complete, ..read };
                }
            } else if same_bytes(key, "incomplete".as_bytes()) {
                incomplete = match TrackerResponse::create_incomplete(&entries[at].1) {
                    Ok(number) => number,
                    Err(error) => { return Err(error); },
                };
                proof {
                    read = ResponseFields { incomplete, ..read };
                }
            } else if same_bytes(key, "peers".as_bytes()) {
                let ghost listed = match entries@[at as int].1.value() {
                    Value::List(items) => peers_of(items),
                    _ => Err(FromTrackerResponseError::NotAList),
                };
                peers = match TrackerResponse::create_peers(&entries[at].1) {
                    Ok(list) => list,
                    Err(error) => { return Err(error); },
                };
                proof {
                    read = ResponseFields { peers: listed->Ok_0, ..read };
                }
            }
            at += 1;
        }
        proof {
            assert(values.subrange(0, at as int) =~= values);
        }
        Ok(TrackerResponse { interval, complete, incomplete, peers })
    }

    /// Reads the interval: a number.
    fn create_interval(bencode: &Bencode) -> (result: Result<i64, FromTrackerResponseError>)
        ensures
            result == (match bencode.value() {
                Value::Number(number) => Ok::<i64, FromTrackerResponseError>(number),
                _ => Err(FromTrackerResponseError::InvalidInterval),
            }),
    {
        match bencode {
            Bencode::BNumber(number) => Ok(*number),
            _ => Err(FromTrackerResponseError::InvalidInterval),
        }
    }

    /// Reads the number of complete peers.
    fn create_complete(bencode: &Bencode) -> (result: Result<i64, FromTrackerResponseError>)
        ensures
            result == (match bencode.value() {
                Value::Number(number) => Ok::<i64, FromTrackerResponseError>(number),
                _ => Err(FromTrackerResponseError::InvalidComplete),
            }),
    {
        match bencode {
            Bencode::BNumber(number) => Ok(*number),
            _ => Err(FromTrackerResponseError::InvalidComplete),
        }
    }

    /// Reads the number of incomplete peers.
    fn create_incomplete(bencode: &Bencode) -> (result: Result<i64, FromTrackerResponseError>)
        ensures
            result == (match bencode.value() {
                Value::Number(number) => Ok::<i64, FromTrackerResponseError>(number),
                _ => Err(FromTrackerResponseError::InvalidIncomplete),
            }),
    {
        match bencode {
            Bencode::BNumber(number) => Ok(*number),
            _ => Err(FromTrackerResponseError::InvalidIncomplete),
        }
    }

    /// Reads the list of peers.
    #[verifier::loop_isolation(false)]
    fn create_peers(bencode: &Bencode) -> (result: Result<Vec<BtPeer>, FromTrackerResponseError>)
        ensures
            match bencode.value() {
                Value::List(items) => match peers_of(items) {
                    Ok(peers) => {
                        &&& result matches Ok(list)
                        &&& list@.len() == peers.len()
                        &&& forall|i: int|
                            0 <= i < peers.len() ==> (#[trigger] list@[i]).has_fields(peers[i])
                    },
                    Err(error) => result == Err::<Vec<BtPeer>, FromTrackerResponseError>(error),
                },
                _ => result == Err::<Vec<BtPeer>, FromTrackerResponseError>(
                    FromTrackerResponseError::NotAList,
                ),
            },
    {
        let items = match bencode {
            Bencode::BList(items) => items,
            _ => { return Err(FromTrackerResponseError::NotAList); },
        };
        proof {
            lemma_list_value(*items);
        }
        let ghost values = items_value(items@);
        let mut peers: Vec<BtPeer> = Vec::new();
        let ghost mut read: Seq<PeerFields> = Seq::empty();
        let mut at: usize = 0;
        while at < items.len()
            invariant
                at <= items@.len(),
                peers_of(values.subrange(0, at as int)) == Ok::<
                    Seq<PeerFields>,
                    FromTrackerResponseError,
                >(read),
                peers@.len() == read.len(),
                forall|i: int| 0 <= i < read.len() ==> (#[trigger] peers@[i]).has_fields(read[i]),
            decreases items@.len() - at,
        {
            proof {
                assert(values.subrange(0, at + 1).drop_last() =~= values.subrange(0, at as int));
                if peers_of(values.subrange(0, at + 1)) is Err {
                    lemma_peers_error_stays(values, at + 1);
                }
            }
            match BtPeer::from_bencode(&items[at]) {
                Ok(peer) => {
                    proof {
                        read = read.push(peer_of(values[at as int])->Ok_0);
                    }
                    peers.push(peer);
                },
                Err(error) => { return Err(FromTrackerResponseError::InvalidPeers(error)); },
            }
            at += 1;
        }
        proof {
            assert(values.subrange(0, at as int) =~= values);
        }
        Ok(peers)
    }
}

/// Once an item is no peer, the items after it change nothing.
pub proof fn lemma_peers_error_stays(items: Seq<Value>, upto: int)
    requires
        0 <= upto <= items.len(),
        peers_of(items.subrange(0, upto)) is Err,
    ensures
        peers_of(items) == peers_of(items.subrange(0, upto)),
    decreases items.len() - upto,
{
    if upto < items.len() {
        assert(items.subrange(0, upto + 1).drop_last() =~= items.subrange(0, upto));
        lemma_peers_error_stays(items, upto + 1);
    } else {
        assert(items.subrange(0, upto) =~= items);
    }
}

} // verus!
