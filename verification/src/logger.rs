//! The lines of the log.

pub mod logger_error;
pub mod logger_sender;
