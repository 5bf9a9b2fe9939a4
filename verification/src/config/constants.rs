use vstd::prelude::*;

verus! {

/// Name of the setting for the port on which connections are accepted.
pub const TCP_PORT: &'static str = "TCP_PORT";

/// Name of the setting for the directory of the log files.
pub const LOG_DIRECTORY: &'static str = "LOG_DIRECTORY";

/// Name of the setting for the directory of the downloaded files.
pub const DOWNLOAD_DIRECTORY: &'static str = "DOWNLOAD_DIRECTORY";

/// Name of the setting for the number of requests kept in flight.
pub const PIPELINING_SIZE: &'static str = "PIPELINING_SIZE";

/// Name of the setting for the timeout of socket reads and writes.
pub const READ_WRITE_SECONDS_TIMEOUT: &'static str = "READ_WRITE_SECONDS_TIMEOUT";

/// Name of the setting for the most sessions of one torrent.
pub const MAX_PEERS_PER_TORRENT: &'static str = "MAX_PEERS_PER_TORRENT";

/// Name of the setting for the size of a log file.
pub const MAX_LOG_FILE_KB_SIZE: &'static str = "MAX_LOG_FILE_KB_SIZE";

/// Number of settings that a configuration has to give at least.
pub const MIN_SETTINGS: usize = 3;

} // verus!
