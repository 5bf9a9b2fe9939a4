use crate::bt_client::error_message::ErrorMessage;
use crate::logger::logger_error::LoggerError;
use vstd::prelude::*;

verus! {

/// Why the client could not be started.
#[derive(Debug, PartialEq, Eq, Clone)]
pub enum BtClientError {
    ConfigurationFileError(ErrorMessage),
    TorrentDirectoryError(ErrorMessage),
    LogError(LoggerError),
    ArgumentError(ErrorMessage),
    UIBuildingError(ErrorMessage),
}

impl BtClientError {
    /// The error of a client whose log could not be started.
    pub fn from_logger(error: LoggerError) -> (wrapped: BtClientError)
        ensures
            wrapped == BtClientError::LogError(error),
    {
        BtClientError::LogError(error)
    }
}

} // verus!
