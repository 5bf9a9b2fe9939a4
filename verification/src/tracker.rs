//! What is said to the tracker, and what it answers.

pub mod constants;
pub mod query_params;
pub mod tracker_response;
