//! The decisions of the `sync` command: setting a directory up, adding to
//! its blacklist by hand, and turning a cache into downloads.
use vstd::prelude::*;

use crate::blacklist::BlacklistEntry;
use crate::cache::Cache;
use crate::config::{platform_named, Config};
use crate::dl::SingleDlArgs;
use crate::index::ids_hold;
use crate::text::str_eq;

verus! {

broadcast use vstd::string::group_string_axioms;

/// What setting a directory up for a URL does.
#[derive(Clone, Copy, Debug, PartialEq, Eq, Structural)]
pub enum SetupAction {
    /// The marker file already names this URL: nothing to do.
    AlreadySet,
    /// The marker file names another URL: refuse.
    Conflict,
    /// There is no marker file: write one.
    Create,
}

/// Decides a setup from the marker file's content, if there is one.
pub fn setup_action(existing: Option<&str>, url: &str) -> (r: SetupAction)
    ensures
        match existing {
            None => r == SetupAction::Create,
            Some(e) => r == if e@ == url@ {
                SetupAction::AlreadySet
            } else {
                SetupAction::Conflict
            },
        },
{
    match existing {
        None => SetupAction::Create,
        Some(e) => if str_eq(e, url) {
            SetupAction::AlreadySet
        } else {
            SetupAction::Conflict
        },
    }
}

/// A `sync` request that names something the configuration does not know.
#[derive(Debug)]
pub enum SyncError {
    /// No source of the configuration has this key.
    UnknownPlatform { ie_key: String },
    /// A cache entry's source is not configured.
    UnregisteredEntry { ie_key: String, title: String },
}

/// The entry to add to the hand-kept blacklist, if its source is configured.
pub fn blacklist_request(config: &Config, platform: String, video_id: String) -> (r: Result<BlacklistEntry, SyncError>)
    ensures
        r is Ok == platform_named(config.platforms@, platform@) is Some,
        r matches Ok(e) ==> e.ie_key == platform && e.video_id == video_id,
{
    match config.platform_index(platform.as_str()) {
        None => Err(SyncError::UnknownPlatform { ie_key: platform }),
        Some(_) => Ok(BlacklistEntry::new(platform, video_id)),
    }
}

/// Download options that only set the output directory.
pub open spec fn output_only(a: SingleDlArgs, dir: String) -> bool {
    &&& !a.no_platform
    &&& a.format is None
    &&& a.custom_temp_dir is None
    &&& !a.no_temp_dir
    &&& a.output_dir == Some(dir)
    &&& a.filenaming is None
    &&& !a.index_prefix
    &&& a.limit_bandwidth is None
    &&& a.cookies is None
    &&& !a.skip_repair_date
    &&& !a.no_thumbnail
    &&& !a.rate_limited
    &&& a.forward_ytdlp_args@.len() == 0
    &&& a.prefetched_title is None
}

/// The downloads of a cache's entries, in order, each into its directory;
/// every entry's source must be configured.
pub fn sync_downloads(cache: &Cache, config: &Config) -> (r: Result<Vec<(String, SingleDlArgs)>, SyncError>)
    ensures
        r is Ok == forall|i: int| 0 <= i < cache.entries@.len() ==> platform_named(config.platforms@, (#[trigger] cache.entries@[i]).ie_key@) is Some,
        r matches Ok(items) ==> {
            &&& items@.len() == cache.entries@.len()
            &&& forall|i: int| 0 <= i < items@.len() ==> (#[trigger] items@[i]).0 == cache.entries@[i].url && output_only(items@[i].1, cache.entries@[i].sync_dir)
        },
{
    let mut i: usize = 0;
    while i < cache.entries.len()
        invariant
            i <= cache.entries@.len(),
            forall|j: int| 0 <= j < i ==> platform_named(config.platforms@, (#[trigger] cache.entries@[j]).ie_key@) is Some,
        decreases cache.entries.len() - i,
    {
        let e = &cache.entries[i];
        if config.platform_index(e.ie_key.as_str()).is_none() {
            return Err(SyncError::UnregisteredEntry { ie_key: e.ie_key.clone(), title: e.title.clone() });
        }
        i = i + 1;
    }
    let mut items: Vec<(String, SingleDlArgs)> = Vec::new();
    let mut i: usize = 0;
    while i < cache.entries.len()
        invariant
            i <= cache.entries@.len(),
            items@.len() == i,
            forall|j: int| 0 <= j < i ==> (#[trigger] items@[j]).0 == cache.entries@[j].url && output_only(items@[j].1, cache.entries@[j].sync_dir),
        decreases cache.entries.len() - i,
    {
        let e = &cache.entries[i];
        let args = SingleDlArgs {
            no_platform: false,
            format: None,
            custom_temp_dir: None,
            no_temp_dir: false,
            output_dir: Some(e.sync_dir.clone()),
            filenaming: None,
            index_prefix: false,
            limit_bandwidth: None,
            cookies: None,
            skip_repair_date: false,
            no_thumbnail: false,
            rate_limited: false,
            forward_ytdlp_args: Vec::new(),
            prefetched_title: None,
        };
        items.push((e.url.clone(), args));
        i = i + 1;
    }
    Ok(items)
}

/// The distinct names among `names`, in order of first appearance.
pub fn distinct(names: &Vec<String>) -> (r: Vec<String>)
    ensures
        forall|i: int, j: int| 0 <= i < j < r@.len() ==> (#[trigger] r@[i])@ != (#[trigger] r@[j])@,
        forall|s: Seq<char>| #![trigger ids_hold(names@, s)] #![trigger ids_hold(r@, s)] ids_hold(names@, s) == ids_hold(r@, s),
{
    let mut out: Vec<String> = Vec::new();
    let mut i: usize = 0;
    assert(names@.take(0) =~= seq![]);
    while i < names.len()
        invariant
            i <= names@.len(),
            forall|a: int, b: int| 0 <= a < b < out@.len() ==> (#[trigger] out@[a])@ != (#[trigger] out@[b])@,
            forall|s: Seq<char>| #![trigger ids_hold(names@.take(i as int), s)] #![trigger ids_hold(out@, s)] ids_hold(names@.take(i as int), s) == ids_hold(out@, s),
        decreases names.len() - i,
    {
        let mut seen = false;
        let mut j: usize = 0;
        while j < out.len()
            invariant
                j <= out@.len(),
                i < names@.len(),
                seen == exists|k: int| 0 <= k < j && (#[trigger] out@[k])@ == names@[i as int]@,
            decreases out.len() - j,
        {
            if str_eq(out[j].as_str(), names[i].as_str()) {
                seen = true;
            }
            j = j + 1;
        }
        let ghost before = out@;
        let ghost pre = names@.take(i as int);
        let ghost post = names@.take(i + 1);
        assert(post == pre.push(names@[i as int]));
        if !seen {
            out.push(names[i].clone());
            assert forall|a: int, b: int| 0 <= a < b < out@.len() implies (#[trigger] out@[a])@ != (#[trigger] out@[b])@ by {
                if b == before.len() {
                    assert(out@[a] == before[a]);
                }
            }
        }
        assert forall|s: Seq<char>| #[trigger] ids_hold(post, s) == ids_hold(out@, s) by {
            if ids_hold(post, s) {
                let k = choose|k: int| 0 <= k < post.len() && #[trigger] post[k]@ == s;
                if k < i {
                    assert(pre[k] == post[k]);
                    assert(ids_hold(pre, s));
                    let j = choose|j: int| 0 <= j < before.len() && #[trigger] before[j]@ == s;
                    assert(out@[j] == before[j]);
                } else if seen {
                    let j = choose|j: int| 0 <= j < before.len() && (#[trigger] before[j])@ == names@[i as int]@;
                    assert(out@[j] == before[j]);
                } else {
                    assert(out@[before.len() as int]@ == s);
                }
            }
            if ids_hold(out@, s) {
                let j = choose|j: int| 0 <= j < out@.len() && #[trigger] out@[j]@ == s;
                if j < before.len() {
                    assert(before[j] == out@[j]);
                    assert(ids_hold(before, s));
                    let k = choose|k: int| 0 <= k < pre.len() && #[trigger] pre[k]@ == s;
                    assert(post[k] == pre[k]);
                } else {
                    assert(post[i as int]@ == s);
                }
            }
        }
        i = i + 1;
    }
    assert(names@.take(names@.len() as int) == names@);
    out
}

} // verus!
