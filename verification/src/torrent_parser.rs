//! The metainfo of a torrent and the sizes derived from it.

pub mod info;
pub mod torrent;
