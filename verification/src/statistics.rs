//! What is shown of a download.

pub mod statistics_updater;
pub mod torrent_stats;
