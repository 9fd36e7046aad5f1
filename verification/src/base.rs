//! What every downloader is made with.

use vstd::prelude::*;

verus! {

/// The settings that the downloaders read.
#[derive(Debug)]
pub struct DownloadConfig {
    /// Gateway templates for `ed2k://` links. Empty: the default gateways.
    pub ed2k_gateways: Vec<String>,
    /// Trackers to announce torrents to, besides their own.
    pub torrent_trackers: Vec<String>,
}

/// One thing to download.
#[derive(Debug)]
pub struct DownloadTask {
    pub url: String,
    pub save_path: String,
}

/// The part that all downloaders share.
#[derive(Debug)]
pub struct BaseDownloader {
    pub config: Option<DownloadConfig>,
    pub running: bool,
}

impl BaseDownloader {
    /// A downloader without settings that is not running.
    pub fn new() -> (res: Self)
        ensures
            res.config is None,
            !res.running,
    {
        BaseDownloader { config: None, running: false }
    }
}

} // verus!
