//! Where the pieces are kept.

pub mod manager;
