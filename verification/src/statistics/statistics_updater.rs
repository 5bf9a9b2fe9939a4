use vstd::prelude::*;

verus! {

/// Why the statistics stop being published.
#[derive(Debug, PartialEq, Eq, Clone, Copy, Structural)]
pub enum StatisticsUpdaterError {
    /// Nobody listens for the statistics any more.
    SenderError,
    /// The statistics of a torrent could not be taken.
    TorrentStatisticsError,
}

/// Why the statistics stop being published.
#[derive(Debug, PartialEq, Eq, Clone, Copy, Structural)]
pub enum RunnerError {
    /// Nobody listens for the statistics any more.
    SenderError,
}

} // verus!
