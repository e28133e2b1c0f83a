//! The configuration that a run works from, as plain values.
use vstd::prelude::*;

verus! {

/// Where the downloader takes cookies from.
#[derive(Debug)]
pub enum UseCookiesFrom {
    /// The cookie store of the named browser.
    Browser(String),
    /// A cookie file at the given path.
    File(String),
}

/// Per-source download options; each one left out falls back to the
/// command line or to the global default.
#[derive(Debug)]
pub struct PlatformDownloadOptions {
    /// Bandwidth limit, e.g. `20M`.
    pub bandwidth_limit: Option<String>,
    /// Items of this source are probed for availability before being cached.
    pub needs_checking: Option<bool>,
    /// This source does not tolerate parallel or back-to-back requests.
    pub rate_limited: Option<bool>,
    pub cookies: Option<UseCookiesFrom>,
    pub skip_repair_date: Option<bool>,
    /// Container to merge the streams into, e.g. `mkv`.
    pub output_format: Option<String>,
    /// Downloader format selection.
    pub download_format: Option<String>,
    pub no_thumbnail: Option<bool>,
    /// Further arguments handed to the downloader as they are.
    pub forward_ytdlp_args: Option<Vec<String>>,
}

/// One configured source.
#[derive(Debug)]
pub struct PlatformConfig {
    /// Pattern recognising every URL of the source.
    pub platform_url_matcher: String,
    /// Pattern recognising item URLs, with an `id` capture group.
    pub videos_url_regex: String,
    /// Prefix that, followed by an item id, gives the item's URL.
    pub videos_url_prefix: String,
    /// Patterns recognising list URLs.
    pub playlist_url_matchers: Option<Vec<String>>,
    /// Items of another source found in a list of this one are fetched
    /// through this source's item URL.
    pub redirect_playlist_videos: Option<bool>,
    pub dl_options: PlatformDownloadOptions,
}

/// The whole configuration.
#[derive(Debug)]
pub struct Config {
    /// Command or path of the external downloader.
    pub yt_dlp_bin: String,
    /// Directory downloads go to before they are moved into place.
    pub tmp_dir: String,
    /// Name of the marker file naming a list URL.
    pub url_filename: String,
    /// Name of the cache file at the sync root.
    pub cache_filename: String,
    /// Name of the blacklist written by availability probes.
    pub auto_blacklist_filename: String,
    /// Name of the blacklist kept by hand.
    pub custom_blacklist_filename: String,
    pub default_bandwidth_limit: Option<String>,
    /// The configured sources, by name.
    pub platforms: Vec<(String, PlatformConfig)>,
}

/// The configuration of the first source named `name`, if any.
pub open spec fn platform_named(platforms: Seq<(String, PlatformConfig)>, name: Seq<char>) -> Option<int> {
    if exists|i: int| 0 <= i < platforms.len() && platforms[i].0@ == name {
        Some(choose|i: int| 0 <= i < platforms.len() && platforms[i].0@ == name && forall|j: int| 0 <= j < i ==> platforms[j].0@ != name)
    } else {
        None
    }
}

impl Config {
    /// The position of the first source named `name`.
    pub fn platform_index(&self, name: &str) -> (r: Option<usize>)
        ensures
            r matches Some(i) ==> platform_named(self.platforms@, name@) == Some(i as int) && i < self.platforms@.len(),
            r is None ==> platform_named(self.platforms@, name@) is None,
    {
        let mut i: usize = 0;
        while i < self.platforms.len()
            invariant
                i <= self.platforms@.len(),
                forall|j: int| 0 <= j < i ==> self.platforms@[j].0@ != name@,
            decreases self.platforms.len() - i,
        {
            if crate::text::str_eq(self.platforms[i].0.as_str(), name) {
                let ghost ps = self.platforms@;
                assert forall|k: int| 0 <= k < ps.len() && ps[k].0@ == name@ && (forall|j: int| 0 <= j < k ==> ps[j].0@ != name@) implies k == i by {
                    if k < i {
                    } else if k > i {
                        assert(ps[i as int].0@ == name@);
                    }
                }
                return Some(i);
            }
            i = i + 1;
        }
        None
    }
}

} // verus!
