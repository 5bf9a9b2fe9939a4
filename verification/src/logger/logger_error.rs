use vstd::prelude::*;

verus! {

/// What can go wrong with the log.
#[derive(Debug, PartialEq, Eq, Clone)]
pub enum LoggerError {
    /// The thread that writes the log could not be started.
    SpawnThreadError,
    /// The line could not be handed to the thread that writes the log.
    SendError(String),
    /// No log file could be made in the directory.
    BadLogPathError(String),
}

} // verus!
