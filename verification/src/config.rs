//! Server configuration values.

use vstd::prelude::*;

verus! {

/// What the analysis server runs with.
#[derive(Debug)]
pub struct Config {
    /// Root music directory to analyze.
    pub music_dir: String,
    /// Directory holding cached analysis results.
    pub cache_dir: String,
    /// Where to write the export, when exporting directly.
    pub output_dir: Option<String>,
    /// The address the server listens on, as `host:port`.
    pub bind_addr: String,
    /// How many analysis tasks may run at once.
    pub max_concurrent: usize,
    /// Playlist server settings, when playlist fetching is on.
    pub navidrome: Option<NavidromeConfig>,
}

/// How to reach the playlist server.
#[derive(Debug)]
pub struct NavidromeConfig {
    /// Server URL.
    pub url: String,
    /// Account name.
    pub user: String,
    /// Account password.
    pub pass: String,
}

impl NavidromeConfig {
    /// Bundle the three connection values.
    pub fn new(url: String, user: String, pass: String) -> (r: NavidromeConfig)
        ensures
            r.url == url,
            r.user == user,
            r.pass == pass,
    {
        NavidromeConfig { url, user, pass }
    }
}

} // verus!
