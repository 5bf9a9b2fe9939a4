use vstd::prelude::*;

verus! {

/// The answer of the tracker to an announce.
#[derive(Debug, PartialEq, Eq, Clone)]
pub struct AnnounceResponse {
    /// Why the announce failed. Where this is given, nothing else counts.
    pub failure_reason: Option<String>,
    /// A warning that does not keep the answer from being used.
    pub warning_message: Option<String>,
    /// Seconds that the client should wait between announces.
    pub interval: u32,
    /// Seconds that the client has to wait between announces, at least.
    pub min_interval: Option<u32>,
    /// What the client should send back with its next announces.
    pub tracker_id: Option<String>,
    /// Number of peers that have the whole file.
    pub complete: u32,
    /// Number of peers that do not.
    pub incomplete: u32,
}

impl AnnounceResponse {
    /// The answer to an announce that was refused for the given reason, or
    /// accepted where there is none: no warning, no intervals, no peers
    /// counted.
    pub fn for_outcome(failure_reason: Option<String>) -> (response: Self)
        ensures
            response.failure_reason == failure_reason,
            response.warning_message is None,
            response.interval == 0,
            response.min_interval is None,
            response.tracker_id is None,
            response.complete == 0,
            response.incomplete == 0,
    {
        Self {
            failure_reason,
            warning_message: None,
            interval: 0,
            min_interval: None,
            tracker_id: None,
            complete: 0,
            incomplete: 0,
        }
    }
}

} // verus!
