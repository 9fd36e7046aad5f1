//! Verified logic of two peer-to-peer downloaders: one for `ed2k://` links, one for BitTorrent.

pub mod base;
pub mod ed2k;
pub mod gateway;
pub mod http;
pub mod link;
pub mod number;
pub mod percent;
pub mod place;
pub mod status;
pub mod text;
pub mod torrent;
