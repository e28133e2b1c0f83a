use ytdl::blacklist::BlacklistEntry;
use ytdl::builder::{apply_availability, assign_ordinals, filter_known_videos, prepare_sync_dir, reconcile_cache, DirFiles, ListReference, SyncDirState};
use ytdl::cache::{Cache, CacheEntry, PlatformVideo};
use ytdl::config::{Config, PlatformConfig, PlatformDownloadOptions};
use ytdl::lists::{collect_videos, fetch_in_parallel, sort_lists, CollectError};
use ytdl::platforms::{build_platform_matchers, IdError, PlatformsMatchers};
use ytdl::ytdlp::{RawPlaylist, RawVideoInfos};

fn options(needs_checking: bool, rate_limited: bool) -> PlatformDownloadOptions {
    PlatformDownloadOptions {
        bandwidth_limit: None,
        needs_checking: Some(needs_checking),
        rate_limited: Some(rate_limited),
        cookies: None,
        skip_repair_date: None,
        output_format: None,
        download_format: None,
        no_thumbnail: None,
        forward_ytdlp_args: None,
    }
}

fn platform(host: &str, needs_checking: bool, rate_limited: bool) -> PlatformConfig {
    PlatformConfig {
        platform_url_matcher: format!("Start \"https://{host}/\""),
        videos_url_regex: format!("Start \"https://{host}/v/\" :id([word '-']+) End"),
        videos_url_prefix: format!("https://{host}/v/"),
        playlist_url_matchers: Some(vec![format!("Start \"https://{host}/list/\" [word]+ End")]),
        redirect_playlist_videos: None,
        dl_options: options(needs_checking, rate_limited),
    }
}

fn config(needs_checking: bool, rate_limited: bool) -> Config {
    Config {
        yt_dlp_bin: "yt-dlp".to_string(),
        tmp_dir: "/tmp/ytdl".to_string(),
        url_filename: ".ytdlsync-url".to_string(),
        cache_filename: ".ytdlsync-cache".to_string(),
        auto_blacklist_filename: ".ytdlsync-blacklist".to_string(),
        custom_blacklist_filename: ".ytdlsync-custom-blacklist".to_string(),
        default_bandwidth_limit: None,
        platforms: vec![("ex".to_string(), platform("ex.com", needs_checking, rate_limited))],
    }
}

fn item(id: &str) -> RawVideoInfos {
    RawVideoInfos { ie_key: "ex".to_string(), title: format!("Title {id}"), url: format!("https://ex.com/v/{id}") }
}

fn list(ids: &[&str]) -> RawPlaylist {
    RawPlaylist { entries: ids.iter().map(|id| item(id)).collect() }
}

fn dir(name: &str, auto: Option<&str>, files: &[&str]) -> SyncDirState {
    prepare_sync_dir(DirFiles {
        dir: name.to_string(),
        auto_blacklist: auto.map(|s| s.to_string()),
        custom_blacklist: None,
        filenames: files.iter().map(|f| f.to_string()).collect(),
    })
    .unwrap()
}

fn build(config: &Config, matchers: &PlatformsMatchers, lists: Vec<(String, RawPlaylist)>, dirs: &Vec<SyncDirState>, probe: impl Fn(&PlatformVideo) -> bool) -> (Cache, Vec<(String, BlacklistEntry)>) {
    let videos = collect_videos(lists, config, matchers).unwrap();
    let videos = filter_known_videos(videos, dirs);
    let probes: Vec<bool> = videos.iter().map(|v| !v.needs_checking || probe(v)).collect();
    let (kept, rejected) = apply_availability(videos, &probes);
    (assign_ordinals(kept), rejected)
}

fn summary(c: &Cache) -> Vec<(usize, String, String)> {
    c.entries.iter().map(|e| (e.index, e.sync_dir.clone(), e.id.clone())).collect()
}

#[test]
fn scenario_two_directories_in_name_order() {
    let config = config(false, false);
    let matchers = build_platform_matchers(&config).unwrap();
    let lists = vec![("beta".to_string(), list(&["b1", "b2"])), ("Alpha".to_string(), list(&["a1", "a2", "a3"]))];
    let dirs = vec![dir("beta", None, &[]), dir("Alpha", None, &[])];
    let (cache, rejected) = build(&config, &matchers, lists, &dirs, |_| true);
    assert_eq!(cache.entries.len(), 5);
    assert_eq!(cache.max_index, 5);
    let ordinals: Vec<usize> = cache.entries.iter().map(|e| e.index).collect();
    assert_eq!(ordinals, vec![0, 1, 2, 3, 4]);
    let ids: Vec<&str> = cache.entries.iter().map(|e| e.id.as_str()).collect();
    assert_eq!(ids, vec!["a1", "a2", "a3", "b1", "b2"]);
    assert_eq!(cache.entries[0].sync_dir, "Alpha");
    assert_eq!(cache.entries[4].sync_dir, "beta");
    assert!(rejected.is_empty());
}

#[test]
fn scenario_file_on_disk_excludes_the_item() {
    let config = config(false, false);
    let matchers = build_platform_matchers(&config).unwrap();
    let lists = vec![("music".to_string(), list(&["a1", "a2", "a3"]))];
    let dirs = vec![dir("music", None, &["Some Title-a2.mp3", "notes.txt"])];
    let (cache, _) = build(&config, &matchers, lists, &dirs, |_| true);
    let ids: Vec<&str> = cache.entries.iter().map(|e| e.id.as_str()).collect();
    assert_eq!(ids, vec!["a1", "a3"]);
    assert_eq!(cache.max_index, 2);
}

#[test]
fn scenario_unavailable_item_is_excluded_and_blacklisted() {
    let config = config(true, false);
    let matchers = build_platform_matchers(&config).unwrap();
    let lists = vec![("videos".to_string(), list(&["ok1", "gone", "ok2"]))];
    let dirs = vec![dir("videos", None, &[])];
    let (cache, rejected) = build(&config, &matchers, lists, &dirs, |v| v.id != "gone");
    let ids: Vec<&str> = cache.entries.iter().map(|e| e.id.as_str()).collect();
    assert_eq!(ids, vec!["ok1", "ok2"]);
    assert_eq!(rejected.len(), 1);
    assert_eq!(rejected[0].0, "videos");
    assert_eq!(rejected[0].1.encode(), "ex/gone");
}

#[test]
fn items_without_probe_pass_through() {
    let videos = vec![
        PlatformVideo { raw: item("x"), sync_dir: ".".to_string(), id: "x".to_string(), needs_checking: false },
        PlatformVideo { raw: item("y"), sync_dir: ".".to_string(), id: "y".to_string(), needs_checking: true },
    ];
    let (kept, rejected) = apply_availability(videos, &vec![false, false]);
    assert_eq!(kept.len(), 1);
    assert_eq!(kept[0].id, "x");
    assert_eq!(rejected.len(), 1);
    assert_eq!(rejected[0].1.video_id, "y");
}

#[test]
fn rebuilding_with_the_written_blacklist_gives_the_same_cache() {
    let config = config(true, false);
    let matchers = build_platform_matchers(&config).unwrap();
    let lists = || vec![("d".to_string(), list(&["k1", "gone", "k2"]))];
    let dirs = vec![dir("d", None, &[])];
    let probe = |v: &PlatformVideo| v.id != "gone";
    let (first, rejected) = build(&config, &matchers, lists(), &dirs, probe);
    let auto: String = rejected.iter().map(|(_, e)| format!("{}\n", e.encode())).collect();
    let dirs2 = vec![dir("d", Some(&auto), &[])];
    let (second, rejected2) = build(&config, &matchers, lists(), &dirs2, probe);
    assert_eq!(summary(&first), summary(&second));
    assert_eq!(first.max_index, second.max_index);
    assert!(rejected2.is_empty());
}

#[test]
fn blacklisted_item_is_never_cached() {
    let config = config(false, false);
    let matchers = build_platform_matchers(&config).unwrap();
    let lists = vec![("d".to_string(), list(&["a", "b"])), ("e".to_string(), list(&["b"]))];
    let dirs = vec![dir("d", Some("ex/b\n"), &[]), dir("e", None, &[])];
    let (cache, _) = build(&config, &matchers, lists, &dirs, |_| true);
    assert_eq!(summary(&cache), vec![(0, "d".to_string(), "a".to_string()), (1, "e".to_string(), "b".to_string())]);
}

#[test]
fn sorting_is_case_insensitive_and_stable() {
    let lists = vec![("b".to_string(), list(&["1"])), ("A".to_string(), list(&["2"])), ("B".to_string(), list(&["3"]))];
    let sorted = sort_lists(lists);
    let dirs: Vec<&str> = sorted.iter().map(|(d, _)| d.as_str()).collect();
    assert_eq!(dirs, vec!["A", "b", "B"]);
}

#[test]
fn unregistered_source_fails_the_build() {
    let config = config(false, false);
    let matchers = build_platform_matchers(&config).unwrap();
    let mut stray = list(&["a"]);
    stray.entries[0].ie_key = "elsewhere".to_string();
    match collect_videos(vec![("d".to_string(), stray)], &config, &matchers) {
        Err(CollectError::UnregisteredPlatform { ie_key, .. }) => assert_eq!(ie_key, "elsewhere"),
        other => panic!("unexpected: {other:?}"),
    }
}

#[test]
fn unresolvable_id_fails_the_build() {
    let config = config(false, false);
    let matchers = build_platform_matchers(&config).unwrap();
    let mut bad = list(&["a"]);
    bad.entries[0].url = "https://ex.com/other/a".to_string();
    match collect_videos(vec![("d".to_string(), bad)], &config, &matchers) {
        Err(CollectError::NoVideoId { cause, .. }) => assert_eq!(cause, IdError::NoMatch),
        other => panic!("unexpected: {other:?}"),
    }
}

#[test]
fn rate_limited_source_fetches_sequentially() {
    let refs = vec![ListReference { sync_dir: ".".to_string(), url: "https://ex.com/list/abc".to_string() }];
    let free = config(false, false);
    assert!(fetch_in_parallel(&refs, &free, &build_platform_matchers(&free).unwrap()).unwrap());
    let limited = config(false, true);
    assert!(!fetch_in_parallel(&refs, &limited, &build_platform_matchers(&limited).unwrap()).unwrap());
    let unknown = vec![ListReference { sync_dir: ".".to_string(), url: "https://nowhere.net/x".to_string() }];
    assert!(fetch_in_parallel(&unknown, &free, &build_platform_matchers(&free).unwrap()).is_err());
}

#[test]
fn reconcile_keeps_ordinals_and_max_index() {
    let entry = |index: usize, id: &str| CacheEntry {
        ie_key: "ex".to_string(),
        id: id.to_string(),
        title: id.to_string(),
        url: format!("https://ex.com/v/{id}"),
        index,
        sync_dir: "d".to_string(),
    };
    let cache = Cache { entries: vec![entry(0, "a"), entry(1, "b"), entry(2, "c")], max_index: 3 };
    let indexes = vec![("d".to_string(), ytdl::index::build_approximate_index(&vec!["Title-b.mp4".to_string()]))];
    let (updated, changed) = reconcile_cache(cache, &indexes);
    assert!(changed);
    assert_eq!(updated.max_index, 3);
    let left: Vec<(usize, &str)> = updated.entries.iter().map(|e| (e.index, e.id.as_str())).collect();
    assert_eq!(left, vec![(0, "a"), (2, "c")]);
    let (again, changed) = reconcile_cache(updated, &indexes);
    assert!(!changed);
    assert_eq!(again.entries.len(), 2);
    assert_eq!(again.max_index, 3);
}

#[test]
fn cache_new_computes_max_index() {
    let entry = |index: usize| CacheEntry {
        ie_key: "ex".to_string(),
        id: "i".to_string(),
        title: "t".to_string(),
        url: "u".to_string(),
        index,
        sync_dir: ".".to_string(),
    };
    assert_eq!(Cache::new(vec![entry(3), entry(7), entry(1)]).max_index, 8);
    assert_eq!(Cache::new(vec![]).max_index, 0);
}

#[test]
fn broken_blacklist_fails_preparation() {
    let r = prepare_sync_dir(DirFiles {
        dir: "d".to_string(),
        auto_blacklist: None,
        custom_blacklist: Some("ok/1\nnot-an-entry".to_string()),
        filenames: vec![],
    });
    let e = r.unwrap_err();
    assert_eq!(e.file, 1);
    assert_eq!(e.error.line, 2);
}
